//! What the store makes of the replies of a database, whatever database it is.
use vstd::prelude::*;
use crate::counter::{GlobalSignatureCounter, IncrGlobalSignatureCounter};
use crate::data_formats::CredentialProtectionPolicy;
use crate::init::{Essential, Material, Source};
use crate::key_material;
use crate::pin::DecrPinRetries;
use crate::request::{Dict, Step};
use crate::status_code::Ctap2StatusCode;

verus! {

use crate::attestation::{aaguid_outcome, certificate_outcome, private_key_outcome};
use crate::bytes::ByteOrder;
use crate::counter::{
    counter_request, counter_resume, incr_request, incr_resume,
};
use crate::credentials::{
    count_outcome, filter_resume, find_outcome, latest, next_order, order_resume, selected,
    FilterView,
};
use crate::data_formats::CredentialView;
use crate::init::{init_request, init_resume, reset_request, reset_resume, InitView, ResetView};
use crate::key;
use crate::pin::{
    byte_outcome, decr_request, decr_resume, pin_hash_outcome, reset_retries_outcome,
    rp_ids_outcome,
};
use crate::record_format::{stored_credential, stored_rp_ids};
use crate::request::{ReplyView, RequestView};
use crate::scan::{
    credential_names, read_credential, scan_request, scan_resume, FoundView, ScanStepView, ScanView,
};
use crate::secrets::{cred_random_outcome, secret_outcome};
use crate::setting_laws::stands_for;
use crate::store_credential::{
    account_names, pending, store_plan, store_request, store_resume, PendingView, StoreView,
};
use crate::store_laws::is_listed;
use crate::values::{
    fetch_value, replace_request, replace_resume, write_outcome, write_request, ReplaceView,
    TargetView, WriteView,
};

/// Whether a result is an internal error.
pub open spec fn is_internal<T>(result: Result<T, Ctap2StatusCode>) -> bool {
    result is Err && result->Err_0 == Ctap2StatusCode::CTAP2_ERR_VENDOR_INTERNAL_ERROR
}

/// Whether a step ends the operation with an internal error.
pub open spec fn ends_internal<O, T>(step: Step<O, Result<T, Ctap2StatusCode>>) -> bool {
    step is Return && is_internal(step->Return_0)
}

// ---------------- what is asked ----------------------

/// Reading asks for the key and creates nothing. A credential is read whole.
pub proof fn reading_asks_for_the_key(dict: Dict, key: Seq<char>, limit: Option<usize>)
    ensures
        fetch_value(dict, key, limit) == (RequestView::Fetch {
            dict,
            key,
            create_key: false,
            hint: None,
            limit,
        }),
        read_credential(key) == (RequestView::Fetch {
            dict: Dict::Credentials,
            key,
            create_key: false,
            hint: Some(112),
            limit: None,
        }),
{
}

/// A value is written under its key as it is, with its size for a hint.
pub proof fn writing_asks_for_the_value(write: WriteView)
    requires
        write.data.len() <= usize::MAX,
    ensures
        write_request(write) is Write,
        write_request(write)->Write_dict == write.dict,
        write_request(write)->Write_key == write.key,
        write_request(write)->Write_data == write.data,
        write_request(write)->Write_hint is Some,
        write_request(write)->Write_hint->0 == write.data.len(),
{
}

/// The counter is read and written under its key, four bytes of it, in the given order.
pub proof fn counter_asks_for_four_bytes(order: ByteOrder, new_value: u32, increment: u32)
    ensures
        counter_request(GlobalSignatureCounter::Reading { order }) == (RequestView::Fetch {
            dict: Dict::Config,
            key: key::GLOBAL_SIGNATURE_COUNTER@,
            create_key: true,
            hint: Some(4),
            limit: Some(4),
        }),
        ({
            let start = counter_request(GlobalSignatureCounter::Starting { order });
            &&& start is Write
            &&& start->Write_dict == Dict::Config
            &&& start->Write_key == key::GLOBAL_SIGNATURE_COUNTER@
            &&& start->Write_data.len() == 4
            &&& stands_for(start->Write_data, order, 1)
        }),
        ({
            let write = incr_request(IncrGlobalSignatureCounter::Writing { new_value, order });
            &&& write is Write
            &&& write->Write_dict == Dict::Config
            &&& write->Write_key == key::GLOBAL_SIGNATURE_COUNTER@
            &&& write->Write_data.len() == 4
            &&& stands_for(write->Write_data, order, new_value as int)
        }),
        incr_request(
            IncrGlobalSignatureCounter::Reading {
                counter: GlobalSignatureCounter::Reading { order },
                increment,
            },
        ) == counter_request(GlobalSignatureCounter::Reading { order }),
{
    crate::bytes::lemma_u32_round_trip(1, order);
    crate::bytes::lemma_u32_round_trip(new_value, order);
}

/// The retries are read and written under their key, one byte of them.
pub proof fn retries_ask_for_one_byte(new_value: u8)
    ensures
        decr_request(DecrPinRetries::Reading) == (RequestView::Fetch {
            dict: Dict::Config,
            key: key::PIN_RETRIES@,
            create_key: false,
            hint: None,
            limit: Some(1),
        }),
        ({
            let write = decr_request(DecrPinRetries::Writing { new_value });
            &&& write is Write
            &&& write->Write_dict == Dict::Config
            &&& write->Write_key == key::PIN_RETRIES@
            &&& write->Write_data.len() == 1
            &&& write->Write_data[0] == new_value
        }),
{
}

/// An initialization measures and writes the value that it is at: the master keys in the
/// configuration, the CredRandom secrets among the credentials, the AAGUID among what is
/// persistent.
pub proof fn init_asks_for_its_value(essential: Essential, source: Source, value: Seq<u8>)
    ensures
        ({
            let (dict, key, size) = match essential {
                Essential::MasterKeys => (Dict::Config, key::MASTER_KEYS@, 64usize),
                Essential::CredRandom => (Dict::Credentials, key::CRED_RANDOM_SECRET@, 64usize),
                Essential::Aaguid => (Dict::Persistent, key::AAGUID@, 16usize),
            };
            &&& init_request(InitView::Measuring { essential, source }) == (RequestView::Measure {
                dict,
                key,
                hint: Some(size),
            })
            &&& init_request(InitView::Writing { essential, source, value }) == (
            RequestView::Write { dict, key, hint: Some(size), data: value })
        }),
        reset_request(ResetView::DeletingConfig { source }) == (RequestView::DeleteDict {
            dict: Dict::Config,
        }),
        reset_request(ResetView::DeletingCredentials { source }) == (RequestView::DeleteDict {
            dict: Dict::Credentials,
        }),
{
}

/// A replacement reads, writes and deletes its key, and writes nothing but its value.
pub proof fn replacing_asks_for_its_key(target: TargetView, longer: bool)
    ensures
        ({
            let write = RequestView::Write {
                dict: target.dict,
                key: target.key,
                hint: Some(target.hint),
                data: target.data,
            };
            &&& replace_request(ReplaceView::Checking { target }) == (RequestView::Fetch {
                dict: target.dict,
                key: target.key,
                create_key: false,
                hint: None,
                limit: None,
            })
            &&& replace_request(ReplaceView::Writing { target, longer }) == write
            &&& replace_request(ReplaceView::Clearing { target }) == (RequestView::DeleteKey {
                dict: target.dict,
                key: target.key,
            })
            &&& replace_request(ReplaceView::Rewriting { target }) == write
        }),
{
}

/// A walk lists the credentials and reads the key that it is at; storing deletes the key of a
/// credential that was replaced.
pub proof fn walking_asks_for_the_current_key(
    done: Seq<Seq<char>>,
    current: Seq<char>,
    rest: Seq<Seq<char>>,
    found: Seq<FoundView>,
    p: PendingView,
    replace: ReplaceView,
)
    ensures
        scan_request(ScanView::Listing) == (RequestView::ListKeys { dict: Dict::Credentials }),
        ({
            let read = RequestView::Fetch {
                dict: Dict::Credentials,
                key: current,
                create_key: false,
                hint: Some(112),
                limit: None,
            };
            let scan = ScanView::Reading { done, current, rest, found };
            &&& scan_request(scan) == read
            &&& store_request(StoreView::Scanning { scan, pending: p }) == read
        }),
        store_request(StoreView::Scanning { scan: ScanView::Listing, pending: p }) == (
        RequestView::ListKeys { dict: Dict::Credentials }),
        store_request(StoreView::Replacing { replace, superseded: rest }) == replace_request(
            replace,
        ),
        store_request(StoreView::Removing { current, rest }) == (RequestView::DeleteKey {
            dict: Dict::Credentials,
            key: current,
        }),
{
}

// ---------------- what single replies mean ----------------------

/// A record that was read is the credential if ID and relying party agree and the check does not
/// hide it. One that is no credential is invalid, one that is not there is none, and any other
/// reply is an internal error.
pub proof fn lookup_reply(
    reply: ReplyView,
    rp_id: Seq<char>,
    credential_id: Seq<u8>,
    check_cred_protect: bool,
)
    ensures
        ({
            let result = find_outcome(reply, rp_id, credential_id, check_cred_protect);
            &&& reply is NotFound ==> result is Ok && result->Ok_0 is None
            &&& !(reply is NotFound) && !(reply is Data) ==> is_internal(result)
            &&& reply is Data && stored_credential(reply->Data_0) is None ==> result is Err
                && result->Err_0 == Ctap2StatusCode::CTAP2_ERR_INVALID_CREDENTIAL
            &&& reply is Data && stored_credential(reply->Data_0) is Some ==> {
                let c = stored_credential(reply->Data_0)->0;
                &&& result is Ok
                &&& result->Ok_0 is Some ==> result->Ok_0->0 == c
                &&& result->Ok_0 is Some <==> c.credential_id == credential_id && c.rp_id == rp_id
                    && (check_cred_protect ==> c.cred_protect_policy != Some(
                    CredentialProtectionPolicy::UserVerificationRequired,
                ))
            }
        }),
{
}

/// The count grows by one for each name but that of the CredRandom secrets. Without a listing it is
/// an internal error.
pub proof fn count_reply(names: Seq<Seq<char>>, name: Seq<char>, reply: ReplyView)
    ensures
        count_outcome(ReplyView::Names(Seq::empty())) == Ok::<nat, Ctap2StatusCode>(0),
        count_outcome(ReplyView::Names(names)) is Ok,
        count_outcome(ReplyView::Names(names.push(name))) is Ok,
        name != key::CRED_RANDOM_SECRET@ ==> count_outcome(
            ReplyView::Names(names.push(name)),
        )->Ok_0 == count_outcome(ReplyView::Names(names))->Ok_0 + 1,
        name == key::CRED_RANDOM_SECRET@ ==> count_outcome(
            ReplyView::Names(names.push(name)),
        )->Ok_0 == count_outcome(ReplyView::Names(names))->Ok_0,
        !(reply is Names) ==> is_internal(count_outcome(reply)),
{
    reveal(Seq::filter);
    assert(names.push(name).drop_last() =~= names);
}

/// The master keys are read whole or not at all, and the CredRandom secrets are the two halves of
/// what was read, that without user verification first.
pub proof fn secret_reply(reply: ReplyView, size: usize)
    ensures
        secret_outcome(reply, size) is Ok <==> reply is Data && reply->Data_0.len() == size,
        secret_outcome(reply, size) is Ok ==> secret_outcome(reply, size)->Ok_0 == reply->Data_0,
        secret_outcome(reply, size) is Err ==> is_internal(secret_outcome(reply, size)),
        forall|has_uv: bool|
            (#[trigger] cred_random_outcome(reply, has_uv)) is Ok <==> reply is Data
                && reply->Data_0.len() == 64,
        forall|has_uv: bool|
            (#[trigger] cred_random_outcome(reply, has_uv)) is Err ==> is_internal(
                cred_random_outcome(reply, has_uv),
            ),
        reply is Data && reply->Data_0.len() == 64 ==> {
            let without_uv = cred_random_outcome(reply, false)->Ok_0;
            let with_uv = cred_random_outcome(reply, true)->Ok_0;
            &&& without_uv.len() == 32 && with_uv.len() == 32
            &&& without_uv + with_uv == reply->Data_0
        },
{
    if reply is Data && reply->Data_0.len() == 64 {
        assert(cred_random_outcome(reply, false)->Ok_0 + cred_random_outcome(reply, true)->Ok_0
            =~= reply->Data_0);
    }
}

/// What replies mean for the PIN hash, the retries and the minimum PIN length: a value of the right
/// size is the value, one that is not there is not set or the default, and anything else is an
/// internal error.
pub proof fn pin_reply(reply: ReplyView, default: u8)
    ensures
        pin_hash_outcome(reply) is Ok <==> reply is NotFound || reply is Data
            && reply->Data_0.len() == 16,
        reply is NotFound ==> pin_hash_outcome(reply)->Ok_0 is None,
        reply is Data && reply->Data_0.len() == 16 ==> pin_hash_outcome(reply)->Ok_0 == Some(
            reply->Data_0,
        ),
        pin_hash_outcome(reply) is Err ==> is_internal(pin_hash_outcome(reply)),
        byte_outcome(reply, default) is Ok <==> reply is NotFound || reply is Data
            && reply->Data_0.len() == 1,
        reply is NotFound ==> byte_outcome(reply, default)->Ok_0 == default,
        reply is Data && reply->Data_0.len() == 1 ==> byte_outcome(reply, default)->Ok_0
            == reply->Data_0[0],
        byte_outcome(reply, default) is Err ==> is_internal(byte_outcome(reply, default)),
        reset_retries_outcome(reply) is Ok <==> reply is Deleted || reply is NotFound,
        reset_retries_outcome(reply) is Err ==> is_internal(reset_retries_outcome(reply)),
{
}

/// What replies mean for the RP IDs: those of the record that was read, none where there is no
/// record or it cannot be opened, and an internal error otherwise.
pub proof fn rp_ids_reply(reply: ReplyView)
    ensures
        rp_ids_outcome(reply) is Ok <==> reply is Data || reply is NotFound || reply is Refused,
        rp_ids_outcome(reply) is Err ==> is_internal(rp_ids_outcome(reply)),
        reply is NotFound || reply is Refused ==> rp_ids_outcome(reply)->Ok_0.len() == 0,
        reply is Data && stored_rp_ids(reply->Data_0) is Some ==> rp_ids_outcome(reply)->Ok_0
            == stored_rp_ids(reply->Data_0)->0,
        reply is Data && stored_rp_ids(reply->Data_0) is None ==> rp_ids_outcome(
            reply,
        )->Ok_0.len() == 0,
{
}

/// What replies mean for the attestation and the AAGUID. A private key or an AAGUID of another size
/// is an internal error; a certificate has any size. What cannot be opened is not defined, or all
/// zeros, save for the private key.
pub proof fn attestation_reply(reply: ReplyView)
    ensures
        private_key_outcome(reply) is Ok <==> reply is NotFound || reply is Data
            && reply->Data_0.len() == 32,
        private_key_outcome(reply) is Err ==> is_internal(private_key_outcome(reply)),
        reply is NotFound ==> private_key_outcome(reply)->Ok_0 is None,
        reply is Data && reply->Data_0.len() == 32 ==> private_key_outcome(reply)->Ok_0 == Some(
            reply->Data_0,
        ),
        certificate_outcome(reply) is Ok <==> reply is Data || reply is NotFound || reply
            is Refused,
        certificate_outcome(reply) is Err ==> is_internal(certificate_outcome(reply)),
        reply is Data ==> certificate_outcome(reply)->Ok_0 == Some(reply->Data_0),
        reply is NotFound || reply is Refused ==> certificate_outcome(reply)->Ok_0 is None,
        aaguid_outcome(reply) is Ok <==> reply is NotFound || reply is Refused || reply is Data
            && reply->Data_0.len() == 16,
        aaguid_outcome(reply) is Err ==> is_internal(aaguid_outcome(reply)),
        reply is Data && reply->Data_0.len() == 16 ==> aaguid_outcome(reply)->Ok_0
            == reply->Data_0,
        reply is NotFound || reply is Refused ==> {
            &&& aaguid_outcome(reply)->Ok_0.len() == 16
            &&& forall|i: int| 0 <= i < 16 ==> #[trigger] aaguid_outcome(reply)->Ok_0[i] == 0
        },
{
}

/// A write has succeeded where bytes were written, all of them where that is asked for. Anything
/// else is an internal error.
pub proof fn write_reply(write: WriteView, reply: ReplyView)
    ensures
        write_outcome(write, reply) is Ok <==> reply is Written && (write.whole
            ==> reply->Written_0 == write.data.len()),
        write_outcome(write, reply) is Err ==> is_internal(write_outcome(write, reply)),
{
}

// ---------------- how operations go on ----------------------

/// The retries are written with one less where any are left, and are else left alone.
pub proof fn decrement_goes_on(reply: ReplyView, new_value: u8)
    ensures
        ({
            let step = decr_resume(DecrPinRetries::Reading, reply);
            &&& reply is NotFound ==> step == Step::Ask::<_, Result<(), Ctap2StatusCode>>(
                DecrPinRetries::Writing { new_value: 7 },
            )
            &&& reply is Data && reply->Data_0.len() == 1 && reply->Data_0[0] > 0 ==> step
                is Ask && step->Ask_0 is Writing && step->Ask_0->new_value == reply->Data_0[0] - 1
            &&& reply is Data && reply->Data_0.len() == 1 && reply->Data_0[0] == 0 ==> step
                is Return && step->Return_0 is Ok
            &&& !(reply is NotFound) && !(reply is Data && reply->Data_0.len() == 1)
                ==> ends_internal(step)
        }),
        ({
            let step = decr_resume(DecrPinRetries::Writing { new_value }, reply);
            &&& reply is Written ==> step is Return && step->Return_0 is Ok
            &&& !(reply is Written) ==> ends_internal(step)
        }),
{
}

/// The counter is the number that was read. One that has not four bytes is set to 1.
pub proof fn counter_goes_on(order: ByteOrder, reply: ReplyView)
    ensures
        ({
            let step = counter_resume(GlobalSignatureCounter::Reading { order }, reply);
            &&& reply is Data && reply->Data_0.len() == 4 ==> step is Return && step->Return_0 is Ok
                && stands_for(reply->Data_0, order, step->Return_0->Ok_0 as int)
            &&& reply is Data && reply->Data_0.len() != 4 ==> step == Step::Ask::<
                _,
                Result<u32, Ctap2StatusCode>,
            >(GlobalSignatureCounter::Starting { order })
            &&& !(reply is Data) ==> ends_internal(step)
        }),
        ({
            let step = counter_resume(GlobalSignatureCounter::Starting { order }, reply);
            &&& reply is Written ==> step is Return && step->Return_0 is Ok
                && step->Return_0->Ok_0 == 1
            &&& !(reply is Written) ==> ends_internal(step)
        }),
{
}

/// An increment reads the counter and writes the sum, less 2 to the 32 where it is too large.
pub proof fn increment_goes_on(
    counter: GlobalSignatureCounter,
    increment: u32,
    order: ByteOrder,
    new_value: u32,
    reply: ReplyView,
)
    requires
        counter == (GlobalSignatureCounter::Reading { order }) || counter == (
        GlobalSignatureCounter::Starting { order }),
    ensures
        ({
            let read = counter_resume(counter, reply);
            let reading = IncrGlobalSignatureCounter::Reading { counter, increment };
            let step = incr_resume(reading, reply);
            &&& read is Ask ==> step == Step::Ask::<_, Result<(), Ctap2StatusCode>>(
                IncrGlobalSignatureCounter::Reading { counter: read->Ask_0, increment },
            )
            &&& read is Return && read->Return_0 is Ok ==> {
                let sum = read->Return_0->Ok_0 + increment;
                &&& step is Ask && step->Ask_0 is Writing
                &&& step->Ask_0->Writing_order == order
                &&& sum < 4294967296 ==> step->Ask_0->new_value == sum
                &&& sum >= 4294967296 ==> step->Ask_0->new_value == sum - 4294967296
            }
            &&& read is Return && read->Return_0 is Err ==> step is Return && step->Return_0 is Err
                && step->Return_0->Err_0 == read->Return_0->Err_0
        }),
        ({
            let step = incr_resume(IncrGlobalSignatureCounter::Writing { new_value, order }, reply);
            &&& reply is Written ==> step is Return && step->Return_0 is Ok
            &&& !(reply is Written) ==> ends_internal(step)
        }),
{
}

/// A replacement writes its value, and then has succeeded, unless the old value was longer: then
/// the key is deleted and the value written once more.
pub proof fn replacement_goes_on(target: TargetView, longer: bool, reply: ReplyView)
    ensures
        ({
            let step = replace_resume(ReplaceView::Checking { target }, reply);
            &&& reply is Data ==> step == Step::Ask::<_, Result<(), Ctap2StatusCode>>(
                ReplaceView::Writing { target, longer: reply->Data_0.len() > target.data.len() },
            )
            &&& reply is NotFound || reply is Failed ==> step == Step::Ask::<
                _,
                Result<(), Ctap2StatusCode>,
            >(ReplaceView::Writing { target, longer: false })
            &&& !(reply is Data) && !(reply is NotFound) && !(reply is Failed) ==> ends_internal(
                step,
            )
        }),
        ({
            let step = replace_resume(ReplaceView::Writing { target, longer }, reply);
            &&& reply is Written && longer ==> step == Step::Ask::<_, Result<(), Ctap2StatusCode>>(
                ReplaceView::Clearing { target },
            )
            &&& reply is Written && !longer ==> step is Return && step->Return_0 is Ok
            &&& !(reply is Written) ==> ends_internal(step)
        }),
        ({
            let step = replace_resume(ReplaceView::Clearing { target }, reply);
            &&& reply is Deleted || reply is NotFound ==> step == Step::Ask::<
                _,
                Result<(), Ctap2StatusCode>,
            >(ReplaceView::Rewriting { target })
            &&& !(reply is Deleted) && !(reply is NotFound) ==> ends_internal(step)
        }),
        ({
            let step = replace_resume(ReplaceView::Rewriting { target }, reply);
            &&& reply is Written ==> step is Return && step->Return_0 is Ok
            &&& !(reply is Written) ==> ends_internal(step)
        }),
{
}

/// The value that an initialization turns to next: after the master keys the CredRandom secrets,
/// and then the AAGUID.
pub open spec fn turns_on(
    step: Step<InitView, Result<(), Ctap2StatusCode>>,
    essential: Essential,
    source: Source,
) -> bool {
    match essential {
        Essential::MasterKeys => step == Step::Ask::<_, Result<(), Ctap2StatusCode>>(
            InitView::Measuring { essential: Essential::CredRandom, source },
        ),
        Essential::CredRandom => step == Step::Ask::<_, Result<(), Ctap2StatusCode>>(
            InitView::Measuring { essential: Essential::Aaguid, source },
        ),
        Essential::Aaguid => step is Return && step->Return_0 is Ok,
    }
}

/// An initialization passes over a value that has its size, writes one that is empty, and refuses
/// any other as invalid. A secret that cannot be had is an internal error, as is any other reply.
pub proof fn initialization_goes_on(
    essential: Essential,
    source: Source,
    value: Seq<u8>,
    reply: ReplyView,
    material: Material,
)
    ensures
        ({
            let step = init_resume(InitView::Measuring { essential, source }, reply, material);
            let size: int = if essential == Essential::Aaguid {
                16
            } else {
                64
            };
            let v = match essential {
                Essential::MasterKeys => match material.master_keys {
                    Some(bytes) => Some(bytes@),
                    None => None,
                },
                Essential::CredRandom => match material.cred_random {
                    Some(bytes) => Some(bytes@),
                    None => None,
                },
                Essential::Aaguid => Some(key_material::AAGUID@),
            };
            &&& reply is Length && reply->Length_0 == size ==> turns_on(step, essential, source)
            &&& reply is Length && reply->Length_0 == 0 && v is Some ==> step == Step::Ask::<
                _,
                Result<(), Ctap2StatusCode>,
            >(InitView::Writing { essential, source, value: v->0 })
            &&& reply is Length && reply->Length_0 == 0 && v is None ==> ends_internal(step)
            &&& reply is Length && reply->Length_0 != 0 && reply->Length_0 != size ==> step
                is Return && step->Return_0 is Err && step->Return_0->Err_0
                == Ctap2StatusCode::CTAP2_ERR_INVALID_CREDENTIAL
            &&& !(reply is Length) ==> ends_internal(step)
        }),
        ({
            let step = init_resume(InitView::Writing { essential, source, value }, reply, material);
            &&& reply is Written ==> turns_on(step, essential, source)
            &&& !(reply is Written) ==> ends_internal(step)
        }),
{
}

/// A reset deletes the configuration, then the credentials, and then initializes the store. What is
/// not there need not be deleted.
pub proof fn reset_goes_on(
    source: Source,
    init: InitView,
    reply: ReplyView,
    material: Material,
)
    ensures
        ({
            let gone = reply is Deleted || reply is NotFound;
            let first = reset_resume(ResetView::DeletingConfig { source }, reply, material);
            let second = reset_resume(ResetView::DeletingCredentials { source }, reply, material);
            &&& gone ==> first == Step::Ask::<_, Result<(), Ctap2StatusCode>>(
                ResetView::DeletingCredentials { source },
            )
            &&& gone ==> second == Step::Ask::<_, Result<(), Ctap2StatusCode>>(
                ResetView::Initializing {
                    init: InitView::Measuring { essential: Essential::MasterKeys, source },
                },
            )
            &&& !gone ==> ends_internal(first) && ends_internal(second)
        }),
        ({
            let step = reset_resume(ResetView::Initializing { init }, reply, material);
            match init_resume(init, reply, material) {
                Step::Ask(next) => step == Step::Ask::<_, Result<(), Ctap2StatusCode>>(
                    ResetView::Initializing { init: next },
                ),
                Step::Return(result) => step == Step::Return::<ResetView, _>(result),
            }
        }),
{
}

/// Whether a walk that has read the keys `done` and found the credentials `found` goes on with the
/// keys `rest`.
pub open spec fn walks_on(
    step: ScanStepView,
    done: Seq<Seq<char>>,
    rest: Seq<Seq<char>>,
    found: Seq<FoundView>,
) -> bool {
    if rest.len() == 0 {
        step == (ScanStepView::Complete { names: done, found })
    } else {
        step == ScanStepView::Ask(
            ScanView::Reading {
                done,
                current: rest[0],
                rest: rest.subrange(1, rest.len() as int),
                found,
            },
        )
    }
}

/// A walk goes through the names of a listing, save for that of the CredRandom secrets, and
/// collects each record that is a credential, with its key. What cannot be opened is passed over;
/// what cannot be read, or listed, breaks the walk off.
pub proof fn walk_goes_on(
    names: Seq<Seq<char>>,
    done: Seq<Seq<char>>,
    current: Seq<char>,
    rest: Seq<Seq<char>>,
    found: Seq<FoundView>,
    reply: ReplyView,
)
    ensures
        ({
            let step = scan_resume(ScanView::Reading { done, current, rest, found }, reply);
            let read = done.push(current);
            &&& reply is Data && stored_credential(reply->Data_0) is Some ==> walks_on(
                step,
                read,
                rest,
                found.push((current, stored_credential(reply->Data_0)->0)),
            )
            &&& reply is Data && stored_credential(reply->Data_0) is None || reply is NotFound
                || reply is Refused ==> walks_on(step, read, rest, found)
            &&& !(reply is Data) && !(reply is NotFound) && !(reply is Refused) ==> step is Broken
        }),
        walks_on(
            scan_resume(ScanView::Listing, ReplyView::Names(names)),
            Seq::empty(),
            credential_names(names),
            Seq::empty(),
        ),
        !(reply is Names) ==> scan_resume(ScanView::Listing, reply) is Broken,
        credential_names(Seq::empty()).len() == 0,
        current != key::CRED_RANDOM_SECRET@ ==> credential_names(names.push(current))
            == credential_names(names).push(current),
        current == key::CRED_RANDOM_SECRET@ ==> credential_names(names.push(current))
            == credential_names(names),
{
    reveal(Seq::filter);
    assert(names.push(current).drop_last() =~= names);
    if rest.len() > 0 {
        assert(rest.drop_first() =~= rest.subrange(1, rest.len() as int));
    }
    let all = credential_names(names);
    if all.len() > 0 {
        assert(all.drop_first() =~= all.subrange(1, all.len() as int));
    }
}

/// A list takes each found credential that belongs to the relying party and, with the check, has no
/// protection policy or one that makes user verification optional, in the order in which they were
/// found.
pub proof fn selection_takes_what_is_asked_for(
    found: Seq<FoundView>,
    next: FoundView,
    rp_id: Seq<char>,
    check_cred_protect: bool,
)
    ensures
        selected(Seq::empty(), rp_id, check_cred_protect).len() == 0,
        is_listed(next.1, rp_id, check_cred_protect) ==> selected(
            found.push(next),
            rp_id,
            check_cred_protect,
        ) == selected(found, rp_id, check_cred_protect).push(next.1),
        !is_listed(next.1, rp_id, check_cred_protect) ==> selected(
            found.push(next),
            rp_id,
            check_cred_protect,
        ) == selected(found, rp_id, check_cred_protect),
{
    assert(found.push(next).drop_last() =~= found);
}

/// The next creation order is 0 where there are no keys, else one more than the greatest that was
/// found, or 0 where that is the last number.
pub proof fn order_is_one_more_than_the_greatest(
    names: Seq<Seq<char>>,
    found: Seq<FoundView>,
    next: FoundView,
)
    ensures
        latest(Seq::empty()) == 0,
        latest(found.push(next)) >= latest(found),
        latest(found.push(next)) >= next.1.creation_order,
        latest(found.push(next)) == latest(found) || latest(found.push(next))
            == next.1.creation_order,
        names.len() == 0 ==> next_order(names, found) == 0,
        names.len() > 0 && latest(found) < u64::MAX ==> next_order(names, found) == latest(found)
            + 1,
        names.len() > 0 && latest(found) == u64::MAX ==> next_order(names, found) == 0,
{
    assert(found.push(next).drop_last() =~= found);
}

/// Listing credentials and determining the creation order follow the walk. Where it breaks off, it
/// is an internal error.
pub proof fn results_follow_the_walk(filter: FilterView, scan: ScanView, reply: ReplyView)
    ensures
        match scan_resume(filter.scan, reply) {
            ScanStepView::Ask(next) => {
                let step = filter_resume(filter, reply);
                &&& step is Ask
                &&& step->Ask_0.scan == next
                &&& step->Ask_0.rp_id == filter.rp_id
                &&& step->Ask_0.check_cred_protect == filter.check_cred_protect
            },
            ScanStepView::Broken => ends_internal(filter_resume(filter, reply)),
            ScanStepView::Complete { names, found } => filter_resume(filter, reply)
                == Step::Return::<FilterView, _>(
                Ok::<_, Ctap2StatusCode>(selected(found, filter.rp_id, filter.check_cred_protect)),
            ),
        },
        match scan_resume(scan, reply) {
            ScanStepView::Ask(next) => order_resume(scan, reply) == Step::Ask::<
                _,
                Result<u64, Ctap2StatusCode>,
            >(next),
            ScanStepView::Broken => ends_internal(order_resume(scan, reply)),
            ScanStepView::Complete { names, found } => order_resume(scan, reply) == Step::Return::<
                ScanView,
                _,
            >(Ok::<_, Ctap2StatusCode>(next_order(names, found))),
        },
{
}

/// A credential on its way into the database has the key of its ID, and carries its relying party
/// and user.
pub proof fn pending_carries_the_credential(c: CredentialView)
    ensures
        pending(c).name == crate::short_id::short_id(c.credential_id),
        pending(c).data == crate::record_format::credential_bytes(c),
        pending(c).rp_id == c.rp_id,
        pending(c).user_handle == c.user_handle,
{
}

/// The credentials that a new one replaces are the found ones of the same user at the same relying
/// party.
pub proof fn replaced_are_those_of_the_user(
    found: Seq<FoundView>,
    next: FoundView,
    p: PendingView,
)
    ensures
        account_names(Seq::empty(), p).len() == 0,
        next.1.rp_id == p.rp_id && next.1.user_handle == p.user_handle ==> account_names(
            found.push(next),
            p,
        ) == account_names(found, p).push(next.0),
        next.1.rp_id != p.rp_id || next.1.user_handle != p.user_handle ==> account_names(
            found.push(next),
            p,
        ) == account_names(found, p),
{
    assert(found.push(next).drop_last() =~= found);
}

/// Once all credentials are known, a new one is refused exactly where there are 150 keys or more,
/// its own is not among them, and it replaces none. Otherwise it is written as it is under its
/// key, and then the keys of those that it replaces are deleted, save for its own.
pub proof fn storing_is_refused_only_when_full(
    p: PendingView,
    names: Seq<Seq<char>>,
    found: Seq<FoundView>,
)
    ensures
        ({
            let step = store_plan(p, names, found);
            let full = names.len() >= 150 && !(exists|i: int|
                0 <= i < names.len() && names[i] == p.name) && account_names(found, p).len() == 0;
            &&& full ==> step is Return && step->Return_0 is Err && step->Return_0->Err_0
                == Ctap2StatusCode::CTAP2_ERR_KEY_STORE_FULL
            &&& !full ==> {
                let target = TargetView {
                    dict: Dict::Credentials,
                    key: p.name,
                    hint: 512,
                    data: p.data,
                };
                &&& step is Ask && step->Ask_0 is Replacing
                &&& step->Ask_0->replace == (ReplaceView::Checking { target })
                &&& forall|name: Seq<char>| #[trigger]
                    step->Ask_0->superseded.contains(name) <==> account_names(found, p).contains(
                        name,
                    ) && name != p.name
            }
        }),
{
    crate::names::lemma_others(account_names(found, p), p.name);
    assert(names.contains(p.name) <==> exists|i: int| 0 <= i < names.len() && names[i] == p.name);
}

/// Storing walks through the credentials, passing over what cannot be read, writes the new one, and
/// deletes those that it replaces, one after the other.
pub proof fn storing_goes_on(
    scan: ScanView,
    p: PendingView,
    replace: ReplaceView,
    current: Seq<char>,
    left: Seq<Seq<char>>,
    reply: ReplyView,
)
    ensures
        ({
            let taken = if scan is Reading && reply is Failed {
                ReplyView::NotFound
            } else {
                reply
            };
            let step = store_resume(StoreView::Scanning { scan, pending: p }, reply);
            match scan_resume(scan, taken) {
                ScanStepView::Ask(next) => step == Step::Ask::<_, Result<(), Ctap2StatusCode>>(
                    StoreView::Scanning { scan: next, pending: p },
                ),
                ScanStepView::Broken => ends_internal(step),
                ScanStepView::Complete { names, found } => step == store_plan(p, names, found),
            }
        }),
        ({
            let step = store_resume(StoreView::Replacing { replace, superseded: left }, reply);
            match replace_resume(replace, reply) {
                Step::Ask(next) => step == Step::Ask::<_, Result<(), Ctap2StatusCode>>(
                    StoreView::Replacing { replace: next, superseded: left },
                ),
                Step::Return(Ok(_)) => deletes_on(step, left),
                Step::Return(Err(code)) => step == Step::Return::<StoreView, _>(
                    Err::<(), _>(code),
                ),
            }
        }),
        ({
            let step = store_resume(StoreView::Removing { current, rest: left }, reply);
            &&& reply is Deleted || reply is NotFound ==> deletes_on(step, left)
            &&& !(reply is Deleted) && !(reply is NotFound) ==> ends_internal(step)
        }),
{
    if left.len() > 0 {
        assert(left.drop_first() =~= left.subrange(1, left.len() as int));
    }
}

/// Whether storing goes on to delete the keys `left`, and has succeeded where there are none.
pub open spec fn deletes_on(
    step: Step<StoreView, Result<(), Ctap2StatusCode>>,
    left: Seq<Seq<char>>,
) -> bool {
    if left.len() == 0 {
        step is Return && step->Return_0 is Ok
    } else {
        step == Step::Ask::<_, Result<(), Ctap2StatusCode>>(
            StoreView::Removing {
                current: left[0],
                rest: left.subrange(1, left.len() as int),
            },
        )
    }
}

} // verus!

//! What reading and writing the settings and secrets means for the database.
use vstd::prelude::*;

verus! {

use crate::attestation::{
    aaguid_in, aaguid_set, certificate_in, certificate_set, private_key_in, private_key_set,
};
use crate::bytes::ByteOrder;
use crate::counter::{counter_incremented, counter_read};
use crate::database_laws::{differ_at, held};
use crate::init::{
    cleared, in_place, init_done, initialized, reset_done, settled, settled_from, Essential,
    Material,
};
use crate::key;
use crate::key_material;
use crate::pddb::{Contents, DictView};
use crate::pin::{
    merged, min_pin_length_in, min_pin_length_set, pin_hash_in, pin_hash_set,
    pin_retries_decremented, pin_retries_in, pin_retries_reset, rp_ids_in, rp_ids_set,
};
use crate::record_format::{rp_ids_bytes, stored_rp_ids};
use crate::request::Dict;
use crate::secrets::{cred_random_in, master_keys_in};
use crate::status_code::Ctap2StatusCode;

// ---------------- reading ----------------------

/// Whether a result holds the first `n` bytes of what a key holds, or an internal error where there
/// are fewer.
pub open spec fn is_front(v: Seq<u8>, n: int, result: Result<Seq<u8>, Ctap2StatusCode>) -> bool {
    match result {
        Ok(front) => {
            &&& v.len() >= n
            &&& front.len() == n
            &&& forall|i: int| 0 <= i < n ==> front[i] == v[i]
        },
        Err(code) => v.len() < n && code == Ctap2StatusCode::CTAP2_ERR_VENDOR_INTERNAL_ERROR,
    }
}

/// The value in a result, where it has to be there.
pub open spec fn present<T>(result: Result<Option<T>, Ctap2StatusCode>) -> Result<
    T,
    Ctap2StatusCode,
> {
    match result {
        Ok(v) => Ok(v->0),
        Err(code) => Err(code),
    }
}

/// The master keys are the first 64 bytes under their key. Without them it is an internal error.
pub proof fn master_keys_are_read(db: Contents)
    ensures
        match held(db, Dict::Config, key::MASTER_KEYS@) {
            Some(v) => is_front(v, 64, master_keys_in(db)),
            None => master_keys_in(db) is Err && master_keys_in(db)->Err_0
                == Ctap2StatusCode::CTAP2_ERR_VENDOR_INTERNAL_ERROR,
        },
{
}

/// The CredRandom secrets without and with user verification, one after the other, are the first 64
/// bytes under their key: byte `i` of the latter is byte 32 + `i` of what is stored.
pub proof fn cred_random_secrets_are_halves(db: Contents)
    ensures
        match held(db, Dict::Credentials, key::CRED_RANDOM_SECRET@) {
            Some(v) if v.len() >= 64 => {
                let without_uv = cred_random_in(db, false);
                let with_uv = cred_random_in(db, true);
                &&& without_uv is Ok && with_uv is Ok
                &&& without_uv->Ok_0.len() == 32 && with_uv->Ok_0.len() == 32
                &&& without_uv->Ok_0 + with_uv->Ok_0 == v.subrange(0, 64)
                &&& forall|i: int| 0 <= i < 32 ==> #[trigger] with_uv->Ok_0[i] == v[32 + i]
            },
            _ => forall|has_uv: bool|
                (#[trigger] cred_random_in(db, has_uv)) == Err::<Seq<u8>, _>(
                    Ctap2StatusCode::CTAP2_ERR_VENDOR_INTERNAL_ERROR,
                ),
        },
{
    if let Some(v) = held(db, Dict::Credentials, key::CRED_RANDOM_SECRET@) {
        if v.len() >= 64 {
            assert(cred_random_in(db, false)->Ok_0 + cred_random_in(db, true)->Ok_0 =~= v.subrange(
                0,
                64,
            ));
        }
    }
}

/// The PIN hash is the first 16 bytes under its key; it is not set where there is no such key.
pub proof fn pin_hash_is_read(db: Contents)
    ensures
        match held(db, Dict::Config, key::PIN_HASH@) {
            Some(v) => {
                &&& pin_hash_in(db) is Ok ==> pin_hash_in(db)->Ok_0 is Some
                &&& is_front(v, 16, present(pin_hash_in(db)))
            },
            None => pin_hash_in(db) is Ok && pin_hash_in(db)->Ok_0 is None,
        },
{
}

/// The PIN retries are the first byte under their key, or 8 where there is no such key.
pub proof fn pin_retries_are_read(db: Contents)
    ensures
        match held(db, Dict::Config, key::PIN_RETRIES@) {
            Some(v) => if v.len() >= 1 {
                pin_retries_in(db) is Ok && pin_retries_in(db)->Ok_0 == v[0]
            } else {
                pin_retries_in(db) is Err && pin_retries_in(db)->Err_0
                    == Ctap2StatusCode::CTAP2_ERR_VENDOR_INTERNAL_ERROR
            },
            None => pin_retries_in(db) is Ok && pin_retries_in(db)->Ok_0 == 8,
        },
{
}

/// The minimum PIN length is the first byte under its key, or 4 where there is no such key.
pub proof fn min_pin_length_is_read(db: Contents)
    ensures
        match held(db, Dict::Config, key::MIN_PIN_LENGTH@) {
            Some(v) => if v.len() >= 1 {
                min_pin_length_in(db) is Ok && min_pin_length_in(db)->Ok_0 == v[0]
            } else {
                min_pin_length_in(db) is Err && min_pin_length_in(db)->Err_0
                    == Ctap2StatusCode::CTAP2_ERR_VENDOR_INTERNAL_ERROR
            },
            None => min_pin_length_in(db) is Ok && min_pin_length_in(db)->Ok_0 == 4,
        },
{
}

/// The RP IDs are those of the record under their key. There are none where there is no such
/// record.
pub proof fn rp_ids_are_read(db: Contents)
    ensures
        match held(db, Dict::Config, key::_MIN_PIN_LENGTH_RP_IDS@) {
            Some(v) => {
                &&& stored_rp_ids(v) is Some ==> rp_ids_in(db) == stored_rp_ids(v)->0
                &&& stored_rp_ids(v) is None ==> rp_ids_in(db).len() == 0
            },
            None => rp_ids_in(db).len() == 0,
        },
{
}

/// The attestation private key is the first 32 bytes under its key; it is not defined where there
/// is no such key.
pub proof fn private_key_is_read(db: Contents)
    ensures
        match held(db, Dict::Persistent, key::ATTESTATION_PRIVATE_KEY@) {
            Some(v) => {
                &&& private_key_in(db) is Ok ==> private_key_in(db)->Ok_0 is Some
                &&& is_front(v, 32, present(private_key_in(db)))
            },
            None => private_key_in(db) is Ok && private_key_in(db)->Ok_0 is None,
        },
{
}

/// The attestation certificate is all that is under its key.
pub proof fn certificate_is_read(db: Contents)
    ensures
        certificate_in(db) == held(db, Dict::Persistent, key::ATTESTATION_CERTIFICATE@),
{
}

/// The AAGUID is the first 16 bytes under its key, or 16 zeros where there is no such key.
pub proof fn aaguid_is_read(db: Contents)
    ensures
        match held(db, Dict::Persistent, key::AAGUID@) {
            Some(v) => is_front(v, 16, aaguid_in(db)),
            None => {
                &&& aaguid_in(db) is Ok
                &&& aaguid_in(db)->Ok_0.len() == 16
                &&& forall|i: int| 0 <= i < 16 ==> #[trigger] aaguid_in(db)->Ok_0[i] == 0
            },
        },
{
}

// ---------------- writing ----------------------

/// Whether a key now starts with `data` and holds what it held beyond it, and nothing else changed.
/// Without the dictionary, nothing changed at all, and it is an internal error.
pub open spec fn writes_front(
    db: Contents,
    dict: Dict,
    key: Seq<char>,
    data: Seq<u8>,
    end: (Result<(), Ctap2StatusCode>, Contents),
) -> bool {
    let (result, after) = end;
    if db.contains_key(dict) {
        let old_len = match held(db, dict, key) {
            Some(v) => v.len(),
            None => 0,
        };
        &&& result is Ok
        &&& differ_at(db, after, dict, key)
        &&& held(after, dict, key) is Some
        &&& data.len() >= old_len ==> held(after, dict, key)->0.len() == data.len()
        &&& data.len() < old_len ==> held(after, dict, key)->0.len() == old_len
        &&& forall|i: int|
            0 <= i < data.len() ==> #[trigger] held(after, dict, key)->0[i] == data[i]
        &&& forall|i: int|
            data.len() <= i < old_len ==> #[trigger] held(after, dict, key)->0[i] == held(
                db,
                dict,
                key,
            )->0[i]
    } else {
        &&& result is Err
        &&& result->Err_0 == Ctap2StatusCode::CTAP2_ERR_VENDOR_INTERNAL_ERROR
        &&& after == db
    }
}

/// Whether a key now holds `data`, no more and no less, and nothing else changed. Without the
/// dictionary, nothing changed at all, and it is an internal error.
pub open spec fn writes_whole(
    db: Contents,
    dict: Dict,
    key: Seq<char>,
    data: Seq<u8>,
    end: (Result<(), Ctap2StatusCode>, Contents),
) -> bool {
    let (result, after) = end;
    if db.contains_key(dict) {
        &&& result is Ok
        &&& differ_at(db, after, dict, key)
        &&& held(after, dict, key) == Some(data)
    } else {
        &&& result is Err
        &&& result->Err_0 == Ctap2StatusCode::CTAP2_ERR_VENDOR_INTERNAL_ERROR
        &&& after == db
    }
}

/// Setting a value of fixed size writes it under its key and changes nothing else.
pub proof fn setters_write_under_their_key(
    db: Contents,
    pin_hash: Seq<u8>,
    min_pin_length: u8,
    private_key: Seq<u8>,
    aaguid: Seq<u8>,
)
    ensures
        writes_front(
            db,
            Dict::Config,
            key::PIN_HASH@,
            pin_hash,
            pin_hash_set(db, pin_hash),
        ),
        writes_front(
            db,
            Dict::Config,
            key::MIN_PIN_LENGTH@,
            seq![min_pin_length],
            min_pin_length_set(db, min_pin_length),
        ),
        writes_front(
            db,
            Dict::Persistent,
            key::ATTESTATION_PRIVATE_KEY@,
            private_key,
            private_key_set(db, private_key),
        ),
        writes_front(
            db,
            Dict::Persistent,
            key::AAGUID@,
            aaguid,
            aaguid_set(db, aaguid),
        ),
{
    lemma_written(db, Dict::Config, key::PIN_HASH@, pin_hash);
    lemma_written(db, Dict::Config, key::MIN_PIN_LENGTH@, seq![min_pin_length]);
    lemma_written(db, Dict::Persistent, key::ATTESTATION_PRIVATE_KEY@, private_key);
    lemma_written(db, Dict::Persistent, key::AAGUID@, aaguid);
}

proof fn lemma_written(db: Contents, dict: Dict, key: Seq<char>, data: Seq<u8>)
    ensures
        writes_front(db, dict, key, data, crate::values::written(db, dict, key, data)),
{
    if db.contains_key(dict) {
        let after = crate::values::written(db, dict, key, data).1;
        assert(after.remove(dict) =~= db.remove(dict));
        assert(after[dict].remove(key) =~= db[dict].remove(key));
    }
}

proof fn lemma_replaced(db: Contents, dict: Dict, key: Seq<char>, data: Seq<u8>)
    ensures
        writes_whole(db, dict, key, data, crate::values::replaced(db, dict, key, data)),
{
    if db.contains_key(dict) {
        let after = crate::values::replaced(db, dict, key, data).1;
        assert(after.remove(dict) =~= db.remove(dict));
        assert(after[dict].remove(key) =~= db[dict].remove(key));
    }
}

/// Setting the attestation certificate replaces it whole.
pub proof fn certificate_is_replaced_whole(db: Contents, certificate: Seq<u8>)
    ensures
        writes_whole(
            db,
            Dict::Persistent,
            key::ATTESTATION_CERTIFICATE@,
            certificate,
            certificate_set(db, certificate),
        ),
{
    lemma_replaced(db, Dict::Persistent, key::ATTESTATION_CERTIFICATE@, certificate);
}

/// Setting the RP IDs replaces the record of the list whole, as long as there are no more than
/// eight. More are refused, and change nothing.
pub proof fn rp_ids_are_replaced_whole(db: Contents, rp_ids: Seq<Seq<char>>)
    ensures
        rp_ids.len() <= 8 ==> writes_whole(
            db,
            Dict::Config,
            key::_MIN_PIN_LENGTH_RP_IDS@,
            rp_ids_bytes(rp_ids),
            rp_ids_set(db, rp_ids),
        ),
        rp_ids.len() > 8 ==> rp_ids_set(db, rp_ids) == (
            Err::<(), _>(Ctap2StatusCode::CTAP2_ERR_KEY_STORE_FULL),
            db,
        ),
{
    reveal_with_fuel(merged, 2);
    assert(merged(rp_ids, crate::pin::default_rp_ids()) == rp_ids);
    lemma_replaced(db, Dict::Config, key::_MIN_PIN_LENGTH_RP_IDS@, rp_ids_bytes(rp_ids));
}

/// Merging keeps a list as it is and adds, once each, what it lacks of another.
pub proof fn merging_adds_what_is_lacking(rp_ids: Seq<Seq<char>>, more: Seq<Seq<char>>)
    ensures
        ({
            let all = merged(rp_ids, more);
            &&& all.len() >= rp_ids.len()
            &&& forall|i: int| 0 <= i < rp_ids.len() ==> #[trigger] all[i] == rp_ids[i]
            &&& forall|rp_id: Seq<char>| #[trigger]
                all.contains(rp_id) <==> rp_ids.contains(rp_id) || more.contains(rp_id)
            &&& forall|i: int, j: int|
                rp_ids.len() <= i < all.len() && 0 <= j < all.len() && all[i] == all[j] ==> i == j
        }),
    decreases more.len(),
{
    if more.len() > 0 {
        let before = merged(rp_ids, more.drop_last());
        let last = more.last();
        merging_adds_what_is_lacking(rp_ids, more.drop_last());
        assert(more =~= more.drop_last().push(last));
        assert forall|rp_id: Seq<char>| #[trigger] merged(rp_ids, more).contains(rp_id)
            <==> rp_ids.contains(rp_id) || more.contains(rp_id) by {
            crate::names::lemma_push_contains(more.drop_last(), last, rp_id);
            crate::names::lemma_push_contains(before, last, rp_id);
        }
        let all = merged(rp_ids, more);
        assert forall|i: int, j: int|
            rp_ids.len() <= i < all.len() && 0 <= j < all.len() && all[i] == all[j] implies i
            == j by {
            if !before.contains(last) {
                if i < before.len() {
                    assert(before.contains(before[i]));
                }
                if j < before.len() {
                    assert(before.contains(before[j]));
                }
            }
        }
    } else {
        assert forall|rp_id: Seq<char>| !more.contains(rp_id) by {}
    }
}

/// A decrement writes one retry less under the key of the retries, where any are left, and else
/// changes nothing.
pub proof fn decrement_takes_one_retry(db: Contents)
    ensures
        pin_retries_in(db) is Err ==> pin_retries_decremented(db) == (
            Err::<(), _>(pin_retries_in(db)->Err_0),
            db,
        ),
        pin_retries_in(db) is Ok && pin_retries_in(db)->Ok_0 == 0 ==> pin_retries_decremented(
            db,
        ).0 is Ok && pin_retries_decremented(db).1 == db,
        pin_retries_in(db) is Ok && pin_retries_in(db)->Ok_0 > 0 ==> writes_front(
            db,
            Dict::Config,
            key::PIN_RETRIES@,
            seq![(pin_retries_in(db)->Ok_0 - 1) as u8],
            pin_retries_decremented(db),
        ),
{
    if pin_retries_in(db) is Ok && pin_retries_in(db)->Ok_0 > 0 {
        let data = seq![(pin_retries_in(db)->Ok_0 - 1) as u8];
        lemma_written(db, Dict::Config, key::PIN_RETRIES@, data);
    }
}

/// A reset of the retries takes their key away and changes nothing else.
pub proof fn reset_takes_the_retries_away(db: Contents)
    ensures
        held(pin_retries_reset(db), Dict::Config, key::PIN_RETRIES@) is None,
        db.contains_key(Dict::Config) ==> differ_at(
            db,
            pin_retries_reset(db),
            Dict::Config,
            key::PIN_RETRIES@,
        ),
        !db.contains_key(Dict::Config) ==> pin_retries_reset(db) == db,
{
    if db.contains_key(Dict::Config) {
        let after = pin_retries_reset(db);
        assert(after.remove(Dict::Config) =~= db.remove(Dict::Config));
        assert(after[Dict::Config].remove(key::PIN_RETRIES@) =~= db[Dict::Config].remove(
            key::PIN_RETRIES@,
        ));
    }
}

// ---------------- signature counter ----------------------

/// Whether the first four bytes of a value stand for a number, each by its weight.
pub open spec fn stands_for(v: Seq<u8>, order: ByteOrder, n: int) -> bool {
    &&& v.len() >= 4
    &&& match order {
        ByteOrder::LittleEndian => n == v[0] + 256 * v[1] + 65536 * v[2] + 16777216 * v[3],
        ByteOrder::BigEndian => n == v[3] + 256 * v[2] + 65536 * v[1] + 16777216 * v[0],
    }
}

/// The counter is the number under its key. One that is not there, or has fewer than four bytes, is
/// set to 1. Nothing else changes.
pub proof fn counter_is_the_number_under_its_key(db: Contents, order: ByteOrder)
    ensures
        ({
            let (result, after) = counter_read(db, order);
            let key = key::GLOBAL_SIGNATURE_COUNTER@;
            if !db.contains_key(Dict::Config) {
                &&& result is Err
                &&& result->Err_0 == Ctap2StatusCode::CTAP2_ERR_VENDOR_INTERNAL_ERROR
                &&& after == db
            } else if held(db, Dict::Config, key) is Some && held(
                db,
                Dict::Config,
                key,
            )->0.len() >= 4 {
                &&& result is Ok
                &&& stands_for(db[Dict::Config][key], order, result->Ok_0 as int)
                &&& after == db
            } else {
                &&& result is Ok
                &&& result->Ok_0 == 1
                &&& differ_at(db, after, Dict::Config, key)
                &&& held(after, Dict::Config, key) is Some
                &&& held(after, Dict::Config, key)->0.len() == 4
                &&& stands_for(held(after, Dict::Config, key)->0, order, 1)
            }
        }),
{
    let (result, after) = counter_read(db, order);
    if db.contains_key(Dict::Config) {
        let key = key::GLOBAL_SIGNATURE_COUNTER@;
        assert(after.remove(Dict::Config) =~= db.remove(Dict::Config));
        assert(after[Dict::Config].remove(key) =~= db[Dict::Config].remove(key));
        crate::bytes::lemma_u32_round_trip(1, order);
    }
}

/// An increment stores the sum of the counter and the increment, less 2 to the 32 where it is too
/// large, and changes nothing else.
pub proof fn increment_stores_the_sum(db: Contents, increment: u32, order: ByteOrder)
    ensures
        ({
            let (result, after) = counter_incremented(db, increment, order);
            let key = key::GLOBAL_SIGNATURE_COUNTER@;
            if !db.contains_key(Dict::Config) {
                &&& result is Err
                &&& result->Err_0 == Ctap2StatusCode::CTAP2_ERR_VENDOR_INTERNAL_ERROR
                &&& after == db
            } else {
                let sum = counter_read(db, order).0->Ok_0 + increment;
                &&& result is Ok
                &&& differ_at(db, after, Dict::Config, key)
                &&& held(after, Dict::Config, key) is Some
                &&& sum < 4294967296 ==> stands_for(
                    held(after, Dict::Config, key)->0,
                    order,
                    sum,
                )
                &&& sum >= 4294967296 ==> stands_for(
                    held(after, Dict::Config, key)->0,
                    order,
                    sum - 4294967296,
                )
            }
        }),
{
    let (result, after) = counter_incremented(db, increment, order);
    let key = key::GLOBAL_SIGNATURE_COUNTER@;
    counter_is_the_number_under_its_key(db, order);
    if db.contains_key(Dict::Config) {
        let read = counter_read(db, order).1;
        let old_value = counter_read(db, order).0->Ok_0;
        let new_value = crate::counter::incremented(old_value, increment);
        let data = crate::bytes::u32_bytes(new_value, order);
        lemma_written(read, Dict::Config, key, data);
        crate::bytes::lemma_u32_round_trip(new_value, order);
        assert(stands_for(data, order, new_value as int));
        let w = held(after, Dict::Config, key)->0;
        assert(w[0] == data[0] && w[1] == data[1] && w[2] == data[2] && w[3] == data[3]);
        assert(after.remove(Dict::Config) =~= db.remove(Dict::Config));
        assert(after[Dict::Config].remove(key) =~= db[Dict::Config].remove(key));
    }
}

// ---------------- initialization and reset ----------------------

/// Whether a value is there: it has its size.
pub open spec fn is_there(db: Contents, dict: Dict, key: Seq<char>, size: int) -> bool {
    held(db, dict, key) is Some && held(db, dict, key)->0.len() == size
}

/// Whether a value is not there: there is no key, or it is empty.
pub open spec fn is_absent(db: Contents, dict: Dict, key: Seq<char>) -> bool {
    held(db, dict, key) is None || held(db, dict, key)->0.len() == 0
}

/// Seeing to one value keeps it where it is there, creates it where it is absent, and changes
/// nothing else. A value of another size is refused.
proof fn lemma_settled(db: Contents, essential: Essential, material: Material)
    ensures
        ({
            let (result, after) = settled(db, essential, material);
            let dict = essential.spec_dict();
            let key = essential.spec_key();
            let size = essential.spec_size() as int;
            &&& is_there(db, dict, key, size) ==> result is Ok && after == db
            &&& is_absent(db, dict, key) && essential.initial(material) is Some ==> result is Ok
                && held(after, dict, key) == essential.initial(material)
            &&& is_absent(db, dict, key) && essential.initial(material) is None ==> result == Err::<
                (),
                _,
            >(Ctap2StatusCode::CTAP2_ERR_VENDOR_INTERNAL_ERROR) && held(after, dict, key) is Some
                && held(after, dict, key)->0.len() == 0
            &&& !is_there(db, dict, key, size) && !is_absent(db, dict, key) ==> result == Err::<
                (),
                _,
            >(Ctap2StatusCode::CTAP2_ERR_INVALID_CREDENTIAL) && after == db
            &&& forall|d: Dict, k: Seq<char>|
                (d != dict || k != key) ==> #[trigger] held(after, d, k) == held(db, d, k)
        }),
{
}

/// A successful initialization keeps each of the three values that is there, creates each that is
/// absent from the given secrets and the default AAGUID, and changes nothing else.
pub proof fn init_creates_what_is_absent(db: Contents, material: Material)
    requires
        init_done(db, material).0 is Ok,
    ensures
        ({
            let after = init_done(db, material).1;
            let master = held(after, Dict::Config, key::MASTER_KEYS@);
            let random = held(after, Dict::Credentials, key::CRED_RANDOM_SECRET@);
            let aaguid = held(after, Dict::Persistent, key::AAGUID@);
            &&& is_there(db, Dict::Config, key::MASTER_KEYS@, 64) ==> master == held(
                db,
                Dict::Config,
                key::MASTER_KEYS@,
            )
            &&& is_absent(db, Dict::Config, key::MASTER_KEYS@) ==> material.master_keys is Some
                && master == Some(material.master_keys->0@)
            &&& is_there(db, Dict::Credentials, key::CRED_RANDOM_SECRET@, 64) ==> random == held(
                db,
                Dict::Credentials,
                key::CRED_RANDOM_SECRET@,
            )
            &&& is_absent(db, Dict::Credentials, key::CRED_RANDOM_SECRET@)
                ==> material.cred_random is Some && random == Some(material.cred_random->0@)
            &&& is_there(db, Dict::Persistent, key::AAGUID@, 16) ==> aaguid == held(
                db,
                Dict::Persistent,
                key::AAGUID@,
            )
            &&& is_absent(db, Dict::Persistent, key::AAGUID@) ==> aaguid == Some(
                key_material::AAGUID@,
            )
            &&& forall|d: Dict, k: Seq<char>|
                !(d == Dict::Config && k == key::MASTER_KEYS@) && !(d == Dict::Credentials && k
                    == key::CRED_RANDOM_SECRET@) && !(d == Dict::Persistent && k == key::AAGUID@)
                    ==> #[trigger] held(after, d, k) == held(db, d, k)
        }),
{
    reveal_with_fuel(settled_from, 3);
    let d1 = settled(db, Essential::MasterKeys, material).1;
    let d2 = settled(d1, Essential::CredRandom, material).1;
    lemma_settled(db, Essential::MasterKeys, material);
    lemma_settled(d1, Essential::CredRandom, material);
    lemma_settled(d2, Essential::Aaguid, material);
}

/// An initialization succeeds exactly where each value is there or can be created. It is refused as
/// invalid where it comes upon a value of another size, and fails as an internal error where it
/// comes upon a secret that cannot be drawn.
pub proof fn init_succeeds_where_it_can(db: Contents, material: Material)
    ensures
        ({
            let result = init_done(db, material).0;
            let master_ok = is_there(db, Dict::Config, key::MASTER_KEYS@, 64) || is_absent(
                db,
                Dict::Config,
                key::MASTER_KEYS@,
            ) && material.master_keys is Some;
            let random_ok = is_there(db, Dict::Credentials, key::CRED_RANDOM_SECRET@, 64)
                || is_absent(db, Dict::Credentials, key::CRED_RANDOM_SECRET@)
                && material.cred_random is Some;
            let aaguid_ok = is_there(db, Dict::Persistent, key::AAGUID@, 16) || is_absent(
                db,
                Dict::Persistent,
                key::AAGUID@,
            );
            let invalid = Err::<(), _>(Ctap2StatusCode::CTAP2_ERR_INVALID_CREDENTIAL);
            let internal = Err::<(), _>(Ctap2StatusCode::CTAP2_ERR_VENDOR_INTERNAL_ERROR);
            &&& result is Ok <==> master_ok && random_ok && aaguid_ok
            &&& !master_ok && is_absent(db, Dict::Config, key::MASTER_KEYS@) ==> result == internal
            &&& !master_ok && !is_absent(db, Dict::Config, key::MASTER_KEYS@) ==> result == invalid
            &&& master_ok && !random_ok && is_absent(
                db,
                Dict::Credentials,
                key::CRED_RANDOM_SECRET@,
            ) ==> result == internal
            &&& master_ok && !random_ok && !is_absent(
                db,
                Dict::Credentials,
                key::CRED_RANDOM_SECRET@,
            ) ==> result == invalid
            &&& master_ok && random_ok && !aaguid_ok ==> result == invalid
        }),
{
    reveal_with_fuel(settled_from, 3);
    let d1 = settled(db, Essential::MasterKeys, material).1;
    let d2 = settled(d1, Essential::CredRandom, material).1;
    lemma_settled(db, Essential::MasterKeys, material);
    lemma_settled(d1, Essential::CredRandom, material);
    lemma_settled(d2, Essential::Aaguid, material);
}

/// Whether it succeeds or fails, an initialization touches nothing but absent values.
pub proof fn init_touches_only_what_is_absent(db: Contents, material: Material)
    ensures
        ({
            let after = init_done(db, material).1;
            &&& forall|d: Dict, k: Seq<char>|
                !(d == Dict::Config && k == key::MASTER_KEYS@) && !(d == Dict::Credentials && k
                    == key::CRED_RANDOM_SECRET@) && !(d == Dict::Persistent && k == key::AAGUID@)
                    ==> #[trigger] held(after, d, k) == held(db, d, k)
            &&& forall|d: Dict, k: Seq<char>|
                !is_absent(db, d, k) ==> #[trigger] held(after, d, k) == held(db, d, k)
        }),
{
    reveal_with_fuel(settled_from, 3);
    let d1 = settled(db, Essential::MasterKeys, material).1;
    let d2 = settled(d1, Essential::CredRandom, material).1;
    lemma_settled(db, Essential::MasterKeys, material);
    lemma_settled(d1, Essential::CredRandom, material);
    lemma_settled(d2, Essential::Aaguid, material);
}

/// A store is initialized exactly where the master keys, the CredRandom secrets and the AAGUID are
/// there.
pub proof fn initialized_stores_have_their_values(db: Contents)
    ensures
        initialized(db) <==> is_there(db, Dict::Config, key::MASTER_KEYS@, 64) && is_there(
            db,
            Dict::Credentials,
            key::CRED_RANDOM_SECRET@,
            64,
        ) && is_there(db, Dict::Persistent, key::AAGUID@, 16),
{
    if initialized(db) {
        assert(in_place(db, Essential::MasterKeys));
        assert(in_place(db, Essential::CredRandom));
        assert(in_place(db, Essential::Aaguid));
    }
}

/// A reset succeeds exactly where both secrets are given and the AAGUID is there or absent. It is
/// an internal error if one is lacking, and else is refused as invalid.
pub proof fn reset_succeeds_where_it_can(db: Contents, material: Material)
    ensures
        ({
            let result = reset_done(db, material).0;
            let given = material.master_keys is Some && material.cred_random is Some;
            let aaguid_ok = is_there(db, Dict::Persistent, key::AAGUID@, 16) || is_absent(
                db,
                Dict::Persistent,
                key::AAGUID@,
            );
            &&& result is Ok <==> given && aaguid_ok
            &&& !given ==> result == Err::<(), _>(Ctap2StatusCode::CTAP2_ERR_VENDOR_INTERNAL_ERROR)
            &&& given && !aaguid_ok ==> result == Err::<(), _>(
                Ctap2StatusCode::CTAP2_ERR_INVALID_CREDENTIAL,
            )
        }),
{
    let cleared = cleared(db);
    init_succeeds_where_it_can(cleared, material);
    assert(is_absent(cleared, Dict::Config, key::MASTER_KEYS@));
    assert(is_absent(cleared, Dict::Credentials, key::CRED_RANDOM_SECRET@));
    assert(held(cleared, Dict::Persistent, key::AAGUID@) == held(
        db,
        Dict::Persistent,
        key::AAGUID@,
    ));
}

/// Whether it succeeds or fails, a reset leaves none of the old configuration and no credential,
/// and touches nothing that is persistent but an absent AAGUID.
pub proof fn reset_leaves_no_credential(db: Contents, material: Material)
    ensures
        ({
            let after = reset_done(db, material).1;
            &&& forall|k: Seq<char>|
                k != key::MASTER_KEYS@ ==> (#[trigger] held(after, Dict::Config, k)) is None
            &&& forall|k: Seq<char>|
                k != key::CRED_RANDOM_SECRET@ ==> (#[trigger] held(after, Dict::Credentials, k))
                    is None
            &&& forall|k: Seq<char>|
                k != key::AAGUID@ || !is_absent(db, Dict::Persistent, k) ==> #[trigger] held(
                    after,
                    Dict::Persistent,
                    k,
                ) == held(db, Dict::Persistent, k)
        }),
{
    let cleared = cleared(db);
    init_touches_only_what_is_absent(cleared, material);
    assert forall|k: Seq<char>| #[trigger] held(cleared, Dict::Persistent, k) == held(
        db,
        Dict::Persistent,
        k,
    ) by {}
}

/// After a successful reset the configuration holds the given master keys alone, the credentials
/// hold the given CredRandom secrets alone, and every persistent value but an absent AAGUID is as
/// it was.
pub proof fn reset_leaves_the_new_secrets_alone(db: Contents, material: Material)
    requires
        reset_done(db, material).0 is Ok,
    ensures
        ({
            let after = reset_done(db, material).1;
            &&& material.master_keys is Some && material.cred_random is Some
            &&& after.contains_key(Dict::Config)
            &&& after[Dict::Config] == DictView::empty().insert(
                key::MASTER_KEYS@,
                material.master_keys->0@,
            )
            &&& after.contains_key(Dict::Credentials)
            &&& after[Dict::Credentials] == DictView::empty().insert(
                key::CRED_RANDOM_SECRET@,
                material.cred_random->0@,
            )
            &&& is_there(db, Dict::Persistent, key::AAGUID@, 16) ==> after[Dict::Persistent]
                == db[Dict::Persistent]
            &&& is_absent(db, Dict::Persistent, key::AAGUID@) ==> held(
                after,
                Dict::Persistent,
                key::AAGUID@,
            ) == Some(key_material::AAGUID@)
            &&& forall|k: Seq<char>|
                k != key::AAGUID@ ==> #[trigger] held(after, Dict::Persistent, k) == held(
                    db,
                    Dict::Persistent,
                    k,
                )
        }),
{
    let cleared = cleared(db);
    let after = reset_done(db, material).1;
    init_creates_what_is_absent(cleared, material);
    assert(is_absent(cleared, Dict::Config, key::MASTER_KEYS@));
    assert(is_absent(cleared, Dict::Credentials, key::CRED_RANDOM_SECRET@));
    assert forall|k: Seq<char>| held(cleared, Dict::Persistent, k) == #[trigger] held(
        db,
        Dict::Persistent,
        k,
    ) by {}
    reveal_with_fuel(settled_from, 3);
    assert(after[Dict::Config] =~= DictView::empty().insert(
        key::MASTER_KEYS@,
        material.master_keys->0@,
    ));
    assert(after[Dict::Credentials] =~= DictView::empty().insert(
        key::CRED_RANDOM_SECRET@,
        material.cred_random->0@,
    ));
}

/// After an initialization or a reset that takes them from given material, the secrets are those
/// of the material: the CredRandom secrets without and with user verification, one after the
/// other, are its 64 bytes, and so are the master keys.
pub proof fn secrets_are_those_given(db: Contents, material: Material, after: Contents)
    requires
        ({
            ||| reset_done(db, material).0 is Ok && after == reset_done(db, material).1
            ||| init_done(db, material).0 is Ok && after == init_done(db, material).1 && is_absent(
                db,
                Dict::Config,
                key::MASTER_KEYS@,
            ) && is_absent(db, Dict::Credentials, key::CRED_RANDOM_SECRET@)
        }),
    ensures
        cred_random_in(after, false) is Ok,
        cred_random_in(after, true) is Ok,
        cred_random_in(after, false)->Ok_0 + cred_random_in(after, true)->Ok_0
            == material.cred_random->0@,
        master_keys_in(after) is Ok,
        master_keys_in(after)->Ok_0 == material.master_keys->0@,
{
    if reset_done(db, material).0 is Ok && after == reset_done(db, material).1 {
        reset_leaves_the_new_secrets_alone(db, material);
    } else {
        init_creates_what_is_absent(db, material);
    }
    master_keys_are_read(after);
    cred_random_secrets_are_halves(after);
    let random = material.cred_random->0@;
    assert(random.subrange(0, 64) =~= random);
    assert(master_keys_in(after)->Ok_0 =~= material.master_keys->0@);
}

} // verus!

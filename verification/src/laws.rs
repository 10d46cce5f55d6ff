//! What holds of the store as a whole.
//!
//! The laws speak of what the database holds before and after a call, in the terms in which the
//! methods of [`PersistentStore`](crate::storage::PersistentStore) state what they do.
use vstd::prelude::*;

verus! {

use crate::attestation::{
    aaguid_in, aaguid_set, certificate_in, certificate_set, private_key_in, private_key_set,
};
use crate::bytes::{lemma_u32_round_trip, u32_bytes, u32_of, ByteOrder};
use crate::counter::{
    counter_incremented, counter_read, incremented, INITIAL_SIGNATURE_COUNTER,
};
use crate::credential_laws::filtered_within_count;
use crate::credentials::{count_in, credential_in, is_next_order, lists_credentials};
use crate::data_formats::CredentialView;
use crate::init::{
    cleared, in_place, init_done, initialized, is_missing, is_supplied, lemma_initialized,
    reset_done, settled, settled_from, Essential, Material,
};
use crate::key;
use crate::key_material;
use crate::key_material::{AAGUID_LENGTH, ATTESTATION_PRIVATE_KEY_LENGTH};
use crate::pddb::{overwritten, value, Contents, DictView};
use crate::pin::{
    decremented, default_rp_ids, min_pin_length_in, min_pin_length_set, pin_hash_in, pin_hash_set,
    pin_retries_decremented, pin_retries_in, pin_retries_reset, rp_ids_in, rp_ids_set,
    DEFAULT_MIN_PIN_LENGTH, MAX_PIN_RETRIES, PIN_AUTH_LENGTH,
};
use crate::request::Dict;
use crate::secrets::{cred_random_half, cred_random_in, master_keys_in};
use crate::short_id::lemma_short_id_is_not_secret;
use crate::status_code::Ctap2StatusCode;
use crate::store_credential::credential_stored;

/// Writing `data` over a value leaves `data` in front.
proof fn lemma_overwritten(v: Seq<u8>, data: Seq<u8>)
    ensures
        overwritten(v, data).len() >= data.len(),
        overwritten(v, data).take(data.len() as int) == data,
{
    assert(overwritten(v, data).take(data.len() as int) =~= data);
}

/// What a value is written over: what the key holds, or nothing.
spec fn before_write(db: Contents, dict: Dict, key: Seq<char>) -> Seq<u8> {
    match value(db, dict, key) {
        Some(v) => v,
        None => Seq::empty(),
    }
}

// ---------------- a getter returns what the setter set ----------------------

/// Once the PIN hash is set, it is what is read, whatever was there before.
pub proof fn pin_hash_reads_back(db: Contents, pin_hash: Seq<u8>)
    requires
        pin_hash.len() == PIN_AUTH_LENGTH,
        pin_hash_set(db, pin_hash).0 is Ok,
    ensures
        pin_hash_in(pin_hash_set(db, pin_hash).1) == Ok::<_, Ctap2StatusCode>(
            Some(pin_hash),
        ),
{
    lemma_overwritten(before_write(db, Dict::Config, key::PIN_HASH@), pin_hash);
}

/// Once the minimum PIN length is set, it is what is read.
pub proof fn min_pin_length_reads_back(db: Contents, min_pin_length: u8)
    requires
        min_pin_length_set(db, min_pin_length).0 is Ok,
    ensures
        min_pin_length_in(min_pin_length_set(db, min_pin_length).1) == Ok::<_, Ctap2StatusCode>(
            min_pin_length,
        ),
{
    let data = seq![min_pin_length];
    let v = before_write(db, Dict::Config, key::MIN_PIN_LENGTH@);
    lemma_overwritten(v, data);
    assert(overwritten(v, data)[0] == overwritten(v, data).take(1)[0]);
}

/// Once the attestation private key is set, it is what is read.
pub proof fn private_key_reads_back(db: Contents, private_key: Seq<u8>)
    requires
        private_key.len() == ATTESTATION_PRIVATE_KEY_LENGTH,
        private_key_set(db, private_key).0 is Ok,
    ensures
        private_key_in(private_key_set(db, private_key).1) == Ok::<_, Ctap2StatusCode>(
            Some(private_key),
        ),
{
    lemma_overwritten(
        before_write(db, Dict::Persistent, key::ATTESTATION_PRIVATE_KEY@),
        private_key,
    );
}

/// Once the attestation certificate is set, it is what is read, to the byte: nothing is left of a
/// longer one.
pub proof fn certificate_reads_back(db: Contents, certificate: Seq<u8>)
    requires
        certificate_set(db, certificate).0 is Ok,
    ensures
        certificate_in(certificate_set(db, certificate).1) == Some(certificate),
{
}

/// Once the AAGUID is set, it is what is read.
pub proof fn aaguid_reads_back(db: Contents, aaguid: Seq<u8>)
    requires
        aaguid.len() == AAGUID_LENGTH,
        aaguid_set(db, aaguid).0 is Ok,
    ensures
        aaguid_in(aaguid_set(db, aaguid).1) == Ok::<_, Ctap2StatusCode>(aaguid),
{
    lemma_overwritten(before_write(db, Dict::Persistent, key::AAGUID@), aaguid);
}

// ---------------- PIN retries ----------------------

/// A decrement takes one retry away, as long as there are any, and never adds one.
pub proof fn retries_are_decremented(db: Contents)
    requires
        db.contains_key(Dict::Config),
        pin_retries_in(db) is Ok,
    ensures
        ({
            let n = pin_retries_in(db)->Ok_0;
            let (result, after) = pin_retries_decremented(db);
            &&& result is Ok
            &&& pin_retries_in(after) == Ok::<_, Ctap2StatusCode>(
                decremented(n),
            )
            &&& n > 0 ==> decremented(n) == n - 1
            &&& n == 0 ==> after == db
        }),
{
    let n = pin_retries_in(db)->Ok_0;
    let data = seq![decremented(n)];
    let v = before_write(db, Dict::Config, key::PIN_RETRIES@);
    lemma_overwritten(v, data);
    assert(overwritten(v, data)[0] == overwritten(v, data).take(1)[0]);
}

/// Resetting the PIN retries brings them back to the maximum.
pub proof fn retries_are_reset(db: Contents)
    ensures
        pin_retries_in(pin_retries_reset(db)) == Ok::<_, Ctap2StatusCode>(
            MAX_PIN_RETRIES,
        ),
{
}

// ---------------- signature counter ----------------------

/// Reading the counter is stable: what was read once is read again, and changes nothing more.
pub proof fn counter_reads_are_stable(db: Contents, order: ByteOrder)
    ensures
        counter_read(counter_read(db, order).1, order) == counter_read(db, order),
{
    lemma_u32_round_trip(INITIAL_SIGNATURE_COUNTER, order);
}

/// An increment adds to the counter. It wraps around at the end.
pub proof fn counter_is_incremented(db: Contents, increment: u32, order: ByteOrder)
    requires
        db.contains_key(Dict::Config),
    ensures
        counter_read(db, order).0 is Ok,
        counter_incremented(db, increment, order).0 is Ok,
        ({
            let old_value = counter_read(db, order).0->Ok_0;
            let new_value = incremented(old_value, increment);
            let after = counter_incremented(db, increment, order).1;
            &&& counter_read(after, order).0 == Ok::<_, Ctap2StatusCode>(new_value)
            &&& old_value + increment <= u32::MAX ==> new_value == old_value + increment
        }),
{
    let old_value = counter_read(db, order).0->Ok_0;
    let new_value = incremented(old_value, increment);
    let data = u32_bytes(new_value, order);
    let read = counter_read(db, order).1;
    lemma_u32_round_trip(new_value, order);
    let v = before_write(read, Dict::Config, key::GLOBAL_SIGNATURE_COUNTER@);
    lemma_overwritten(v, data);
    let w = overwritten(v, data);
    assert(forall|i: int| 0 <= i < 4 ==> w[i] == w.take(4)[i]);
    assert(u32_of(w, order) == u32_of(data, order));
}

// ---------------- what a change leaves alone ----------------------

/// What may change the database, short of a reset.
pub enum Change {
    Init { material: Material },
    StoreCredential { credential: CredentialView },
    ReadCounter { order: ByteOrder },
    IncrementCounter { increment: u32, order: ByteOrder },
    SetPinHash { pin_hash: Seq<u8> },
    DecrementPinRetries,
    ResetPinRetries,
    SetMinPinLength { min_pin_length: u8 },
    SetRpIds { rp_ids: Seq<Seq<char>> },
    SetPrivateKey { private_key: Seq<u8> },
    SetCertificate { certificate: Seq<u8> },
    SetAaguid { aaguid: Seq<u8> },
}

/// What the database holds after a change, whether it succeeded or not.
pub open spec fn changed(db: Contents, change: Change) -> Contents {
    match change {
        Change::Init { material } => init_done(db, material).1,
        Change::StoreCredential { credential } => credential_stored(db, credential).1,
        Change::ReadCounter { order } => counter_read(db, order).1,
        Change::IncrementCounter { increment, order } => {
            counter_incremented(db, increment, order).1
        },
        Change::SetPinHash { pin_hash } => pin_hash_set(db, pin_hash).1,
        Change::DecrementPinRetries => pin_retries_decremented(db).1,
        Change::ResetPinRetries => pin_retries_reset(db),
        Change::SetMinPinLength { min_pin_length } => min_pin_length_set(db, min_pin_length).1,
        Change::SetRpIds { rp_ids } => rp_ids_set(db, rp_ids).1,
        Change::SetPrivateKey { private_key } => private_key_set(db, private_key).1,
        Change::SetCertificate { certificate } => certificate_set(db, certificate).1,
        Change::SetAaguid { aaguid } => aaguid_set(db, aaguid).1,
    }
}

/// How a change ends.
pub open spec fn change_result(db: Contents, change: Change) -> Result<(), Ctap2StatusCode> {
    match change {
        Change::Init { material } => init_done(db, material).0,
        Change::StoreCredential { credential } => credential_stored(db, credential).0,
        Change::ReadCounter { order } => match counter_read(db, order).0 {
            Ok(_) => Ok(()),
            Err(code) => Err(code),
        },
        Change::IncrementCounter { increment, order } => {
            counter_incremented(db, increment, order).0
        },
        Change::SetPinHash { pin_hash } => pin_hash_set(db, pin_hash).0,
        Change::DecrementPinRetries => pin_retries_decremented(db).0,
        Change::ResetPinRetries => Ok(()),
        Change::SetMinPinLength { min_pin_length } => min_pin_length_set(db, min_pin_length).0,
        Change::SetRpIds { rp_ids } => rp_ids_set(db, rp_ids).0,
        Change::SetPrivateKey { private_key } => private_key_set(db, private_key).0,
        Change::SetCertificate { certificate } => certificate_set(db, certificate).0,
        Change::SetAaguid { aaguid } => aaguid_set(db, aaguid).0,
    }
}

/// A change that fails changes nothing. (An initialization may have seen to some values before it
/// came upon one that is corrupted or cannot be drawn.)
pub proof fn failures_change_nothing(db: Contents, change: Change)
    requires
        !(change is Init),
        change_result(db, change) is Err,
    ensures
        changed(db, change) == db,
{
}

/// Whether a change is meant to change a key.
pub open spec fn concerns(change: Change, dict: Dict, key: Seq<char>) -> bool {
    match change {
        Change::Init { .. } => {
            ||| dict == Dict::Config && key == key::MASTER_KEYS@
            ||| dict == Dict::Credentials && key == key::CRED_RANDOM_SECRET@
            ||| dict == Dict::Persistent && key == key::AAGUID@
        },
        Change::StoreCredential { .. } => dict == Dict::Credentials && key
            != key::CRED_RANDOM_SECRET@,
        Change::ReadCounter { .. } => dict == Dict::Config && key == key::GLOBAL_SIGNATURE_COUNTER@,
        Change::IncrementCounter { .. } => dict == Dict::Config && key
            == key::GLOBAL_SIGNATURE_COUNTER@,
        Change::SetPinHash { .. } => dict == Dict::Config && key == key::PIN_HASH@,
        Change::DecrementPinRetries => dict == Dict::Config && key == key::PIN_RETRIES@,
        Change::ResetPinRetries => dict == Dict::Config && key == key::PIN_RETRIES@,
        Change::SetMinPinLength { .. } => dict == Dict::Config && key == key::MIN_PIN_LENGTH@,
        Change::SetRpIds { .. } => dict == Dict::Config && key == key::_MIN_PIN_LENGTH_RP_IDS@,
        Change::SetPrivateKey { .. } => dict == Dict::Persistent && key
            == key::ATTESTATION_PRIVATE_KEY@,
        Change::SetCertificate { .. } => dict == Dict::Persistent && key
            == key::ATTESTATION_CERTIFICATE@,
        Change::SetAaguid { .. } => dict == Dict::Persistent && key == key::AAGUID@,
    }
}

/// Seeing to a value leaves every other key alone.
proof fn lemma_settled_confined(
    db: Contents,
    essential: Essential,
    material: Material,
    dict: Dict,
    key: Seq<char>,
)
    requires
        dict != essential.spec_dict() || key != essential.spec_key(),
    ensures
        value(settled(db, essential, material).1, dict, key) == value(db, dict, key),
{
}

/// The initialization leaves every key alone that it does not concern.
proof fn lemma_init_confined(db: Contents, material: Material, dict: Dict, key: Seq<char>)
    requires
        !concerns(Change::Init { material }, dict, key),
    ensures
        value(init_done(db, material).1, dict, key) == value(db, dict, key),
{
    reveal_with_fuel(settled_from, 3);
    let d1 = settled(db, Essential::MasterKeys, material).1;
    let d2 = settled(d1, Essential::CredRandom, material).1;
    lemma_settled_confined(db, Essential::MasterKeys, material, dict, key);
    lemma_settled_confined(d1, Essential::CredRandom, material, dict, key);
    lemma_settled_confined(d2, Essential::Aaguid, material, dict, key);
}

/// Storing a credential leaves the CredRandom secrets and the other dictionaries alone.
proof fn lemma_store_confined(
    db: Contents,
    credential: CredentialView,
    dict: Dict,
    key: Seq<char>,
)
    requires
        dict != Dict::Credentials || key == key::CRED_RANDOM_SECRET@,
    ensures
        value(credential_stored(db, credential).1, dict, key) == value(db, dict, key),
{
    lemma_short_id_is_not_secret(credential.credential_id);
}

/// A change of a setting leaves every key alone that it does not concern.
proof fn lemma_setting_confined(db: Contents, change: Change, dict: Dict, key: Seq<char>)
    requires
        !concerns(change, dict, key),
        !(change is Init),
        !(change is StoreCredential),
    ensures
        value(changed(db, change), dict, key) == value(db, dict, key),
{
    match change {
        Change::ReadCounter { order } => {
            assert(value(counter_read(db, order).1, dict, key) == value(db, dict, key));
        },
        Change::IncrementCounter { increment, order } => {
            assert(value(counter_read(db, order).1, dict, key) == value(db, dict, key));
            let after = counter_incremented(db, increment, order).1;
            assert(value(after, dict, key) == value(db, dict, key));
        },
        Change::SetPinHash { pin_hash } => {
            assert(value(pin_hash_set(db, pin_hash).1, dict, key) == value(db, dict, key));
        },
        Change::DecrementPinRetries => {
            assert(value(pin_retries_decremented(db).1, dict, key) == value(db, dict, key));
        },
        Change::ResetPinRetries => {
            assert(value(pin_retries_reset(db), dict, key) == value(db, dict, key));
        },
        Change::SetMinPinLength { min_pin_length } => {
            assert(value(min_pin_length_set(db, min_pin_length).1, dict, key) == value(
                db,
                dict,
                key,
            ));
        },
        Change::SetRpIds { rp_ids } => {
            assert(value(rp_ids_set(db, rp_ids).1, dict, key) == value(db, dict, key));
        },
        Change::SetPrivateKey { private_key } => {
            assert(value(private_key_set(db, private_key).1, dict, key) == value(db, dict, key));
        },
        Change::SetCertificate { certificate } => {
            assert(value(certificate_set(db, certificate).1, dict, key) == value(db, dict, key));
        },
        Change::SetAaguid { aaguid } => {
            assert(value(aaguid_set(db, aaguid).1, dict, key) == value(db, dict, key));
        },
        _ => {},
    }
}

/// A change leaves every key alone that it does not concern.
pub proof fn changes_are_confined(db: Contents, change: Change, dict: Dict, key: Seq<char>)
    requires
        !concerns(change, dict, key),
    ensures
        value(changed(db, change), dict, key) == value(db, dict, key),
{
    match change {
        Change::Init { material } => lemma_init_confined(db, material, dict, key),
        Change::StoreCredential { credential } => lemma_store_confined(db, credential, dict, key),
        _ => lemma_setting_confined(db, change, dict, key),
    }
}

/// An initialization changes nothing in a database that is initialized.
pub proof fn init_is_idempotent(db: Contents, material: Material)
    requires
        initialized(db),
    ensures
        init_done(db, material) == (Ok::<(), Ctap2StatusCode>(()), db),
{
    reveal_with_fuel(settled_from, 3);
    assert(in_place(db, Essential::MasterKeys));
    assert(in_place(db, Essential::CredRandom));
    assert(in_place(db, Essential::Aaguid));
}

/// The master keys and the CredRandom secrets stay the same until a reset, whatever else is done.
pub proof fn secrets_stay_the_same(db: Contents, change: Change)
    requires
        initialized(db),
    ensures
        master_keys_in(changed(db, change)) == master_keys_in(db),
        forall|has_uv: bool| #[trigger]
            cred_random_in(changed(db, change), has_uv) == cred_random_in(db, has_uv),
{
    if change is Init {
        init_is_idempotent(db, change->material);
    } else {
        key::lemma_config_names_distinct();
        changes_are_confined(db, change, Dict::Config, key::MASTER_KEYS@);
        changes_are_confined(db, change, Dict::Credentials, key::CRED_RANDOM_SECRET@);
    }
}

/// A store that is initialized stays so, whatever is done short of a reset. (An AAGUID has its
/// fixed size.)
pub proof fn initialized_is_kept(db: Contents, change: Change)
    requires
        initialized(db),
        change is SetAaguid ==> change->aaguid.len() == AAGUID_LENGTH,
    ensures
        initialized(changed(db, change)),
{
    if change is Init {
        init_is_idempotent(db, change->material);
    } else {
        let after = changed(db, change);
        key::lemma_config_names_distinct();
        key::lemma_persistent_names_distinct();
        changes_are_confined(db, change, Dict::Config, key::MASTER_KEYS@);
        changes_are_confined(db, change, Dict::Credentials, key::CRED_RANDOM_SECRET@);
        assert(in_place(db, Essential::MasterKeys));
        assert(in_place(db, Essential::CredRandom));
        assert(in_place(db, Essential::Aaguid));
        if !(change is SetAaguid) {
            changes_are_confined(db, change, Dict::Persistent, key::AAGUID@);
        }
        assert(in_place(after, Essential::Aaguid));
        assert(in_place(after, Essential::MasterKeys));
        assert(in_place(after, Essential::CredRandom));
    }
}

/// In an initialized store the secrets can be read, and every setting can be set.
pub proof fn initialized_is_usable(db: Contents)
    requires
        initialized(db),
    ensures
        master_keys_in(db) is Ok,
        forall|has_uv: bool| #[trigger] cred_random_in(db, has_uv) is Ok,
        aaguid_in(db) is Ok,
        count_in(db) is Ok,
        forall|order: ByteOrder| (#[trigger] counter_read(db, order)).0 is Ok,
        forall|increment: u32, order: ByteOrder|
            (#[trigger] counter_incremented(db, increment, order)).0 is Ok,
        forall|pin_hash: Seq<u8>| (#[trigger] pin_hash_set(db, pin_hash)).0 is Ok,
        forall|n: u8| (#[trigger] min_pin_length_set(db, n)).0 is Ok,
        forall|private_key: Seq<u8>| (#[trigger] private_key_set(db, private_key)).0 is Ok,
        forall|certificate: Seq<u8>| (#[trigger] certificate_set(db, certificate)).0 is Ok,
        forall|aaguid: Seq<u8>| (#[trigger] aaguid_set(db, aaguid)).0 is Ok,
{
    assert(in_place(db, Essential::MasterKeys));
    assert(in_place(db, Essential::CredRandom));
    assert(in_place(db, Essential::Aaguid));
}

/// What is done to the database.
pub enum Call {
    Change(Change),
    Reset { material: Material },
}

/// What the database holds after a call.
pub open spec fn called(db: Contents, call: Call) -> Contents {
    match call {
        Call::Change(change) => changed(db, change),
        Call::Reset { material } => reset_done(db, material).1,
    }
}

/// What the database holds after some calls, one after the other.
pub open spec fn called_all(db: Contents, calls: Seq<Call>) -> Contents
    decreases calls.len(),
{
    if calls.len() == 0 {
        db
    } else {
        called(called_all(db, calls.drop_last()), calls.last())
    }
}

/// The retries that remain can always be read, and only a reset of the store or of the retries adds
/// to them.
pub proof fn only_resets_add_retries(db: Contents, call: Call)
    requires
        pin_retries_in(db) is Ok,
    ensures
        pin_retries_in(called(db, call)) is Ok,
        pin_retries_in(called(db, call))->Ok_0 <= pin_retries_in(db)->Ok_0 || (pin_retries_in(
            called(db, call),
        )->Ok_0 == MAX_PIN_RETRIES && (call is Reset || call == Call::Change(
            Change::ResetPinRetries,
        ))),
{
    key::lemma_config_names_distinct();
    match call {
        Call::Reset { material } => {
            lemma_init_confined(cleared(db), material, Dict::Config, key::PIN_RETRIES@);
        },
        Call::Change(Change::ResetPinRetries) => {
            retries_are_reset(db);
        },
        Call::Change(Change::DecrementPinRetries) => {
            if db.contains_key(Dict::Config) {
                retries_are_decremented(db);
            }
        },
        Call::Change(change) => {
            changes_are_confined(db, change, Dict::Config, key::PIN_RETRIES@);
        },
    }
}

/// Whatever is done to a fresh store, there are never more PIN retries than the maximum.
pub proof fn retries_stay_within_limit(material: Material, calls: Seq<Call>)
    ensures
        ({
            let fresh = init_done(Contents::empty(), material).1;
            let retries = pin_retries_in(called_all(fresh, calls));
            retries is Ok && retries->Ok_0 <= MAX_PIN_RETRIES
        }),
    decreases calls.len(),
{
    let fresh = init_done(Contents::empty(), material).1;
    if calls.len() == 0 {
        key::lemma_config_names_distinct();
        lemma_init_confined(Contents::empty(), material, Dict::Config, key::PIN_RETRIES@);
    } else {
        retries_stay_within_limit(material, calls.drop_last());
        only_resets_add_retries(called_all(fresh, calls.drop_last()), calls.last());
    }
}

// ---------------- a fresh store, and a store after a reset ----------------------

/// Whether a store has fresh secrets, default settings, and no credentials.
pub open spec fn blank(db: Contents, material: Material) -> bool {
    &&& master_keys_in(db) == Ok::<_, Ctap2StatusCode>(material.master_keys->0@)
    &&& forall|has_uv: bool| #[trigger]
        cred_random_in(db, has_uv) == Ok::<_, Ctap2StatusCode>(
            cred_random_half(material.cred_random->0@, has_uv),
        )
    &&& pin_hash_in(db) == Ok::<Option<Seq<u8>>, Ctap2StatusCode>(None)
    &&& pin_retries_in(db) == Ok::<_, Ctap2StatusCode>(MAX_PIN_RETRIES)
    &&& min_pin_length_in(db) == Ok::<_, Ctap2StatusCode>(DEFAULT_MIN_PIN_LENGTH)
    &&& rp_ids_in(db) == default_rp_ids()
    &&& forall|order: ByteOrder|
        (#[trigger] counter_read(db, order)).0 == Ok::<_, Ctap2StatusCode>(
            INITIAL_SIGNATURE_COUNTER,
        )
    &&& count_in(db) == Ok::<nat, Ctap2StatusCode>(0)
    &&& is_next_order(db[Dict::Credentials], 0)
    &&& forall|list: Seq<CredentialView>, rp_id: Seq<char>, check_cred_protect: bool| #[trigger]
        lists_credentials(list, db[Dict::Credentials], rp_id, check_cred_protect) ==> list.len()
            == 0
    &&& forall|rp_id: Seq<char>, credential_id: Seq<u8>, check_cred_protect: bool| #[trigger]
        credential_in(db, rp_id, credential_id, check_cred_protect) == Ok::<
            Option<CredentialView>,
            Ctap2StatusCode,
        >(None)
}

/// Initializing a database without configuration and credentials makes a blank store.
proof fn lemma_blank(db: Contents, material: Material)
    requires
        !db.contains_key(Dict::Config),
        !db.contains_key(Dict::Credentials),
        in_place(db, Essential::Aaguid) || is_missing(db, Essential::Aaguid),
        material.complete(),
    ensures
        init_done(db, material).0 is Ok,
        blank(init_done(db, material).1, material),
        initialized(init_done(db, material).1),
        in_place(db, Essential::Aaguid) ==> init_done(db, material).1[Dict::Persistent]
            == db[Dict::Persistent],
{
    lemma_initialized(db, material);
    assert(is_supplied(db, Essential::MasterKeys, material));
    assert(is_supplied(db, Essential::CredRandom, material));
    assert(is_supplied(db, Essential::Aaguid, material));
    reveal_with_fuel(settled_from, 3);
    let after = init_done(db, material).1;
    key::lemma_config_names_distinct();
    let keys = after[Dict::Credentials];
    assert(keys =~= DictView::empty().insert(key::CRED_RANDOM_SECRET@, material.cred_random->0@));
    assert(keys.dom().remove(key::CRED_RANDOM_SECRET@) =~= Set::empty());
    assert(after[Dict::Config] =~= DictView::empty().insert(
        key::MASTER_KEYS@,
        material.master_keys->0@,
    ));
    assert(material.master_keys->0@.take(64) =~= material.master_keys->0@);
    assert(material.cred_random->0@.take(64) =~= material.cred_random->0@);
    assert forall|list: Seq<CredentialView>, rp_id: Seq<char>, check_cred_protect: bool| #[trigger]
        lists_credentials(list, keys, rp_id, check_cred_protect) implies list.len() == 0 by {
        filtered_within_count(list, keys, rp_id, check_cred_protect);
    }
    assert forall|rp_id: Seq<char>, credential_id: Seq<u8>, check_cred_protect: bool| #[trigger]
        credential_in(after, rp_id, credential_id, check_cred_protect) == Ok::<
            Option<CredentialView>,
            Ctap2StatusCode,
        >(None) by {
        lemma_short_id_is_not_secret(credential_id);
    }
}

/// A store in an empty database is blank and initialized. It has the default AAGUID, and no
/// attestation.
pub proof fn fresh_store_is_blank(material: Material)
    requires
        material.complete(),
    ensures
        ({
            let (result, db) = init_done(Contents::empty(), material);
            &&& result is Ok
            &&& initialized(db)
            &&& blank(db, material)
            &&& aaguid_in(db) == Ok::<_, Ctap2StatusCode>(key_material::AAGUID@)
            &&& private_key_in(db) == Ok::<Option<Seq<u8>>, Ctap2StatusCode>(None)
            &&& certificate_in(db) is None
        }),
{
    lemma_blank(Contents::empty(), material);
    reveal_with_fuel(settled_from, 3);
    key::lemma_persistent_names_distinct();
    assert(key_material::AAGUID@.take(16) =~= key_material::AAGUID@);
}

/// Where there is randomness, a reset of an initialized store succeeds, and makes the store blank.
/// The secrets are new, and what is persistent stays as it is.
pub proof fn reset_makes_blank(db: Contents, material: Material)
    requires
        initialized(db),
        material.complete(),
    ensures
        ({
            let (result, after) = reset_done(db, material);
            &&& result is Ok
            &&& initialized(after)
            &&& blank(after, material)
            &&& after[Dict::Persistent] == db[Dict::Persistent]
            &&& aaguid_in(after) == aaguid_in(db)
            &&& private_key_in(after) == private_key_in(db)
            &&& certificate_in(after) == certificate_in(db)
        }),
{
    assert(in_place(db, Essential::Aaguid));
    assert(in_place(cleared(db), Essential::Aaguid));
    lemma_blank(cleared(db), material);
    let after = reset_done(db, material).1;
    assert(in_place(after, Essential::Aaguid));
}

/// A reset leaves every persistent value alone, in whatever state the store is, unless there is no
/// AAGUID.
pub proof fn reset_spares_persistent(db: Contents, material: Material, key: Seq<char>)
    requires
        !is_missing(db, Essential::Aaguid) || key != key::AAGUID@,
    ensures
        value(reset_done(db, material).1, Dict::Persistent, key) == value(
            db,
            Dict::Persistent,
            key,
        ),
{
    reveal_with_fuel(settled_from, 3);
    assert(is_missing(cleared(db), Essential::Aaguid) == is_missing(db, Essential::Aaguid));
}

// ---------------- opening a store again ----------------------

/// Whether a call keeps a store initialized: an AAGUID has its fixed size, and there is randomness
/// for a reset.
pub open spec fn keeps_initialized(call: Call) -> bool {
    match call {
        Call::Change(Change::SetAaguid { aaguid }) => aaguid.len() == AAGUID_LENGTH,
        Call::Change(_) => true,
        Call::Reset { material } => material.complete(),
    }
}

/// A store that was made in an empty database stays initialized.
pub proof fn reached_stores_are_initialized(material: Material, calls: Seq<Call>)
    requires
        material.complete(),
        forall|i: int| 0 <= i < calls.len() ==> keeps_initialized(#[trigger] calls[i]),
    ensures
        initialized(called_all(init_done(Contents::empty(), material).1, calls)),
    decreases calls.len(),
{
    let fresh = init_done(Contents::empty(), material).1;
    if calls.len() == 0 {
        fresh_store_is_blank(material);
    } else {
        let before = calls.drop_last();
        assert(forall|i: int| 0 <= i < before.len() ==> before[i] == calls[i]);
        assert(keeps_initialized(calls[calls.len() - 1]));
        reached_stores_are_initialized(material, before);
        match calls.last() {
            Call::Change(change) => initialized_is_kept(called_all(fresh, before), change),
            Call::Reset { material: new } => reset_makes_blank(called_all(fresh, before), new),
        }
    }
}

/// Whether everything that can be read of two databases is alike, in the same byte order.
pub open spec fn reads_alike(a: Contents, b: Contents, order: ByteOrder) -> bool {
    &&& master_keys_in(a) == master_keys_in(b)
    &&& forall|has_uv: bool| #[trigger] cred_random_in(a, has_uv) == cred_random_in(b, has_uv)
    &&& pin_hash_in(a) == pin_hash_in(b)
    &&& pin_retries_in(a) == pin_retries_in(b)
    &&& min_pin_length_in(a) == min_pin_length_in(b)
    &&& rp_ids_in(a) == rp_ids_in(b)
    &&& counter_read(a, order).0 == counter_read(b, order).0
    &&& aaguid_in(a) == aaguid_in(b)
    &&& private_key_in(a) == private_key_in(b)
    &&& certificate_in(a) == certificate_in(b)
    &&& count_in(a) == count_in(b)
    &&& forall|next: u64| #[trigger]
        is_next_order(a[Dict::Credentials], next) == is_next_order(b[Dict::Credentials], next)
    &&& forall|rp_id: Seq<char>, credential_id: Seq<u8>, check_cred_protect: bool| #[trigger]
        credential_in(a, rp_id, credential_id, check_cred_protect) == credential_in(
            b,
            rp_id,
            credential_id,
            check_cred_protect,
        )
    &&& forall|list: Seq<CredentialView>, rp_id: Seq<char>, check_cred_protect: bool| #[trigger]
        lists_credentials(list, a[Dict::Credentials], rp_id, check_cred_protect)
            == lists_credentials(list, b[Dict::Credentials], rp_id, check_cred_protect)
}

/// A store that is opened again on what another one left reads everything as that one did, in the
/// same byte order. Opening needs no randomness.
pub proof fn reopened_store_reads_alike(
    material: Material,
    calls: Seq<Call>,
    again: Material,
    order: ByteOrder,
)
    requires
        material.complete(),
        forall|i: int| 0 <= i < calls.len() ==> keeps_initialized(#[trigger] calls[i]),
    ensures
        ({
            let left = called_all(init_done(Contents::empty(), material).1, calls);
            let (result, opened) = init_done(left, again);
            &&& result is Ok
            &&& opened == left
            &&& reads_alike(left, opened, order)
        }),
{
    reached_stores_are_initialized(material, calls);
    init_is_idempotent(called_all(init_done(Contents::empty(), material).1, calls), again);
}

} // verus!

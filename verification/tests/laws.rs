use vault_storage::bytes::ByteOrder;
use vault_storage::credentials::MAX_SUPPORTED_RESIDENTIAL_KEYS;
use vault_storage::data_formats::{
    CredentialProtectionPolicy, PublicKeyCredentialSource, PublicKeyCredentialType,
};
use vault_storage::init::Material;
use vault_storage::pddb::Pddb;
use vault_storage::request::{Dict, Reply, Request};
use vault_storage::status_code::Ctap2StatusCode;
use vault_storage::storage::PersistentStore;

fn credential(id: u8, rp_id: &str, user: u8) -> PublicKeyCredentialSource {
    PublicKeyCredentialSource {
        key_type: PublicKeyCredentialType::PublicKey,
        credential_id: vec![id; 32],
        private_key: [id; 32],
        rp_id: String::from(rp_id),
        user_handle: vec![user],
        user_display_name: None,
        cred_protect_policy: None,
        creation_order: 0,
        user_name: None,
        user_icon: None,
    }
}

/// A database with a value in a fresh dictionary.
fn database(dict: Dict, key: &str, data: &[u8]) -> Pddb {
    let mut pddb = Pddb::new();
    let key = String::from(key);
    assert_eq!(
        pddb.perform(Request::Measure { dict, key: key.clone(), hint: None }),
        Reply::Length(0)
    );
    let write = Request::Write { dict, key, hint: None, data: data.to_vec() };
    assert_eq!(pddb.perform(write), Reply::Written(data.len()));
    pddb
}

#[test]
fn the_database() {
    let mut pddb = database(Dict::Config, "k", &[1, 2, 3]);
    let fetch = |limit| Request::Fetch {
        dict: Dict::Config,
        key: String::from("k"),
        create_key: false,
        hint: None,
        limit,
    };
    assert_eq!(pddb.query(fetch(None)), Reply::Data(vec![1, 2, 3]));
    assert_eq!(pddb.query(fetch(Some(2))), Reply::Data(vec![1, 2]));
    // A shorter value leaves the rest.
    let write = |data: &[u8]| Request::Write {
        dict: Dict::Config,
        key: String::from("k"),
        hint: None,
        data: data.to_vec(),
    };
    assert_eq!(pddb.perform(write(&[9])), Reply::Written(1));
    assert_eq!(pddb.query(fetch(None)), Reply::Data(vec![9, 2, 3]));
    assert_eq!(
        pddb.query(Request::ListKeys { dict: Dict::Config }),
        Reply::Names(vec![String::from("k")])
    );
    assert_eq!(pddb.query(Request::ListKeys { dict: Dict::Persistent }), Reply::NotFound);
    let delete = || Request::DeleteKey { dict: Dict::Config, key: String::from("k") };
    assert_eq!(pddb.perform(delete()), Reply::Deleted);
    assert_eq!(pddb.perform(delete()), Reply::NotFound);
    assert_eq!(pddb.query(fetch(None)), Reply::NotFound);
    assert_eq!(pddb.perform(Request::DeleteDict { dict: Dict::Config }), Reply::Deleted);
    assert_eq!(pddb.perform(Request::DeleteDict { dict: Dict::Config }), Reply::NotFound);
    assert_eq!(pddb.perform(write(&[9])), Reply::NotFound);
}

#[test]
fn initializing_is_idempotent() {
    let mut store = PersistentStore::new(Pddb::new()).unwrap();
    let keys = store.master_keys().unwrap();
    let secret = store.cred_random_secret(true).unwrap();
    assert_eq!(store.init(), Ok(()));
    let material = Material { master_keys: Some([1; 64]), cred_random: Some([2; 64]) };
    assert_eq!(store.init_with(material), Ok(()));
    assert_eq!(store.master_keys().unwrap().encryption, keys.encryption);
    assert_eq!(store.master_keys().unwrap().hmac, keys.hmac);
    assert_eq!(store.cred_random_secret(true).unwrap(), secret);
}

#[test]
fn initializing_keeps_what_is_there() {
    let store = PersistentStore::new(database(Dict::Config, "MASTER_KEYS", &[7; 64])).unwrap();
    assert_eq!(store.master_keys().unwrap().encryption, [7; 32]);
    let store = PersistentStore::new(database(Dict::Persistent, "AAGUID", &[7; 16])).unwrap();
    assert_eq!(store.aaguid(), Ok([7; 16]));
}

#[test]
fn resetting_takes_new_secrets() {
    let mut store = PersistentStore::new(Pddb::new()).unwrap();
    let mut cred_random = [3u8; 64];
    cred_random[63] = 4;
    store.set_min_pin_length(6).unwrap();
    store.decr_pin_retries().unwrap();
    store.incr_global_signature_counter(10).unwrap();
    store.store_credential(credential(1, "a", 1)).unwrap();
    store.set_aaguid(&[9; 16]).unwrap();
    let material = Material { master_keys: Some([1; 64]), cred_random: Some(cred_random) };
    assert_eq!(store.reset_with(material), Ok(()));
    assert_eq!(store.master_keys().unwrap().hmac, [1; 32]);
    assert_eq!(store.cred_random_secret(false), Ok([3; 32]));
    assert_eq!(store.cred_random_secret(true).unwrap()[31], 4);
    assert_eq!(store.min_pin_length(), Ok(4));
    assert_eq!(store.pin_retries(), Ok(8));
    assert_eq!(store.global_signature_counter(), Ok(1));
    assert_eq!(store.count_credentials(), Ok(0));
    assert_eq!(store.new_creation_order(), Ok(0));
    assert_eq!(store.find_credential("a", &[1; 32], false), Ok(None));
    assert_eq!(store.aaguid(), Ok([9; 16]));
}

#[test]
fn corrupted_databases_are_refused() {
    let corrupted = Some(Ctap2StatusCode::CTAP2_ERR_INVALID_CREDENTIAL);
    let pddb = database(Dict::Config, "MASTER_KEYS", &[7; 63]);
    assert_eq!(PersistentStore::new(pddb).err(), corrupted);
    let pddb = database(Dict::Credentials, "CRED_RANDOM_SECRET", &[7]);
    assert_eq!(PersistentStore::new(pddb).err(), corrupted);
    let pddb = database(Dict::Persistent, "AAGUID", &[7; 17]);
    assert_eq!(PersistentStore::new(pddb).err(), corrupted);
}

#[test]
fn missing_randomness() {
    let internal = Ctap2StatusCode::CTAP2_ERR_VENDOR_INTERNAL_ERROR;
    let mut store = PersistentStore::new(Pddb::new()).unwrap();
    // A complete store needs none.
    let none = || Material { master_keys: None, cred_random: None };
    assert_eq!(store.init_with(none()), Ok(()));
    // A reset does. The configuration and the credentials are gone then.
    store.set_attestation_certificate(&[1]).unwrap();
    assert_eq!(store.reset_with(none()), Err(internal));
    assert!(store.master_keys().is_err());
    assert_eq!(store.count_credentials(), Err(internal));
    let first = Material { master_keys: Some([1; 64]), cred_random: None };
    assert_eq!(store.reset_with(first), Err(internal));
    assert_eq!(store.master_keys().unwrap().hmac, [1; 32]);
    assert_eq!(store.cred_random_secret(true), Err(internal));
    assert_eq!(store.attestation_certificate(), Ok(Some(vec![1])));
    // It can be made up for.
    let second = Material { master_keys: None, cred_random: Some([2; 64]) };
    assert_eq!(store.init_with(second), Ok(()));
    assert_eq!(store.master_keys().unwrap().hmac, [1; 32]);
    assert_eq!(store.cred_random_secret(true), Ok([2; 32]));
}

#[test]
fn reopened_stores_read_alike() {
    let mut store = PersistentStore::new(Pddb::new()).unwrap();
    store.store_credential(credential(1, "a", 1)).unwrap();
    store.set_pin_hash(&[1; 16]).unwrap();
    store.decr_pin_retries().unwrap();
    store.incr_global_signature_counter(300).unwrap();
    store.set_attestation_certificate(&[1, 2]).unwrap();
    let keys = store.master_keys().unwrap();
    let secret = store.cred_random_secret(true).unwrap();
    let mut store = PersistentStore::new(store.into_pddb()).unwrap();
    assert_eq!(store.master_keys().unwrap().encryption, keys.encryption);
    assert_eq!(store.cred_random_secret(true), Ok(secret));
    assert_eq!(store.pin_hash(), Ok(Some([1; 16])));
    assert_eq!(store.pin_retries(), Ok(7));
    assert_eq!(store.global_signature_counter(), Ok(301));
    assert_eq!(store.new_creation_order(), Ok(1));
    assert_eq!(store.attestation_certificate(), Ok(Some(vec![1, 2])));
    let expected = credential(1, "a", 1);
    assert_eq!(store.find_credential("a", &[1; 32], false), Ok(Some(expected.clone())));
    assert_eq!(store.filter_credential("a", false), Ok(vec![expected]));
}

#[test]
fn byte_orders_of_a_store() {
    for (order, bytes) in
        [(ByteOrder::LittleEndian, vec![2, 1, 0, 0]), (ByteOrder::BigEndian, vec![0, 0, 1, 2])]
    {
        let mut store = PersistentStore::with_byte_order(Pddb::new(), order).unwrap();
        store.incr_global_signature_counter(257).unwrap();
        assert_eq!(store.global_signature_counter(), Ok(258));
        let pddb = store.into_pddb();
        let fetch = Request::Fetch {
            dict: Dict::Config,
            key: String::from("GLOBAL_SIGNATURE_COUNTER"),
            create_key: false,
            hint: None,
            limit: None,
        };
        assert_eq!(pddb.query(fetch), Reply::Data(bytes));
        let mut store = PersistentStore::with_byte_order(pddb, order).unwrap();
        assert_eq!(store.global_signature_counter(), Ok(258));
    }
}

#[test]
fn secrets_outlast_other_changes() {
    let mut store = PersistentStore::new(Pddb::new()).unwrap();
    let keys = store.master_keys().unwrap();
    let secret = store.cred_random_secret(false).unwrap();
    store.store_credential(credential(1, "a", 1)).unwrap();
    store.global_signature_counter().unwrap();
    store.incr_global_signature_counter(1).unwrap();
    store.set_pin_hash(&[1; 16]).unwrap();
    store.decr_pin_retries().unwrap();
    store.reset_pin_retries().unwrap();
    store.set_min_pin_length(5).unwrap();
    store._set_min_pin_length_rp_ids(vec![String::from("a")]).unwrap();
    store.set_attestation_private_key(&[1; 32]).unwrap();
    store.set_attestation_certificate(&[1]).unwrap();
    store.set_aaguid(&[1; 16]).unwrap();
    assert_eq!(store.master_keys().unwrap().encryption, keys.encryption);
    assert_eq!(store.master_keys().unwrap().hmac, keys.hmac);
    assert_eq!(store.cred_random_secret(false).unwrap(), secret);
    // And none of the settings stands in the way of another.
    assert_eq!(store.pin_hash(), Ok(Some([1; 16])));
    assert_eq!(store.pin_retries(), Ok(8));
    assert_eq!(store.min_pin_length(), Ok(5));
    assert_eq!(store._min_pin_length_rp_ids(), Ok(vec![String::from("a")]));
    assert_eq!(store.attestation_private_key(), Ok(Some([1; 32])));
    assert_eq!(store.attestation_certificate(), Ok(Some(vec![1])));
    assert_eq!(store.aaguid(), Ok([1; 16]));
    assert_eq!(store.global_signature_counter(), Ok(2));
    assert_eq!(store.count_credentials(), Ok(1));
}

#[test]
fn shorter_values_replace_longer_ones() {
    let mut store = PersistentStore::new(Pddb::new()).unwrap();
    store.set_attestation_certificate(&[1; 20]).unwrap();
    store.set_attestation_certificate(&[2; 3]).unwrap();
    assert_eq!(store.attestation_certificate(), Ok(Some(vec![2; 3])));
    let long = vec![String::from("a.example.com"), String::from("b.example.com")];
    let short = vec![String::from("c")];
    store._set_min_pin_length_rp_ids(long).unwrap();
    store._set_min_pin_length_rp_ids(short.clone()).unwrap();
    assert_eq!(store._min_pin_length_rp_ids(), Ok(short));
    let mut long = credential(1, "a", 1);
    long.user_icon = Some("icon".repeat(50));
    let short = credential(1, "a", 1);
    store.store_credential(long).unwrap();
    store.store_credential(short.clone()).unwrap();
    assert_eq!(store.find_credential("a", &[1; 32], false), Ok(Some(short)));
}

#[test]
fn too_many_rp_ids() {
    let mut store = PersistentStore::new(Pddb::new()).unwrap();
    let list: Vec<String> = (0..9).map(|i| format!("rp{}", i)).collect();
    assert_eq!(
        store._set_min_pin_length_rp_ids(list.clone()),
        Err(Ctap2StatusCode::CTAP2_ERR_KEY_STORE_FULL)
    );
    assert_eq!(store._min_pin_length_rp_ids(), Ok(vec![]));
    assert_eq!(store._set_min_pin_length_rp_ids(list[..8].to_vec()), Ok(()));
    assert_eq!(store._min_pin_length_rp_ids(), Ok(list[..8].to_vec()));
}

#[test]
fn counter_wraps_around() {
    let mut store = PersistentStore::new(Pddb::new()).unwrap();
    assert_eq!(store.incr_global_signature_counter(u32::MAX - 1), Ok(()));
    assert_eq!(store.global_signature_counter(), Ok(u32::MAX));
    assert_eq!(store.global_signature_counter(), Ok(u32::MAX));
    assert_eq!(store.incr_global_signature_counter(2), Ok(()));
    assert_eq!(store.global_signature_counter(), Ok(1));
}

#[test]
fn found_credentials_are_asked_for() {
    let mut store = PersistentStore::new(Pddb::new()).unwrap();
    let mut hidden = credential(1, "a", 1);
    hidden.cred_protect_policy = Some(CredentialProtectionPolicy::UserVerificationRequired);
    store.store_credential(hidden.clone()).unwrap();
    assert_eq!(store.find_credential("a", &[1; 32], false), Ok(Some(hidden)));
    assert_eq!(store.find_credential("a", &[1; 32], true), Ok(None));
    assert_eq!(store.find_credential("b", &[1; 32], false), Ok(None));
    assert_eq!(store.find_credential("a", &[1; 16], false), Ok(None));
    assert_eq!(store.find_credential("a", &[2; 32], false), Ok(None));
}

#[test]
fn filtered_credentials_are_asked_for() {
    let mut store = PersistentStore::new(Pddb::new()).unwrap();
    let mut listed = credential(1, "a", 1);
    listed.cred_protect_policy = Some(CredentialProtectionPolicy::UserVerificationOptional);
    let mut hidden = credential(2, "a", 2);
    hidden.cred_protect_policy = Some(CredentialProtectionPolicy::UserVerificationRequired);
    store.store_credential(listed.clone()).unwrap();
    store.store_credential(hidden.clone()).unwrap();
    store.store_credential(credential(3, "b", 1)).unwrap();
    assert_eq!(store.filter_credential("a", true), Ok(vec![listed.clone()]));
    let all = store.filter_credential("a", false).unwrap();
    assert_eq!(all.len(), 2);
    assert!(all.contains(&listed) && all.contains(&hidden));
    assert_eq!(store.filter_credential("c", false), Ok(vec![]));
}

#[test]
fn accounts_have_one_credential() {
    let mut store = PersistentStore::new(Pddb::new()).unwrap();
    store.store_credential(credential(1, "a", 1)).unwrap();
    store.store_credential(credential(2, "a", 2)).unwrap();
    store.store_credential(credential(3, "b", 1)).unwrap();
    store.store_credential(credential(4, "a", 1)).unwrap();
    assert_eq!(store.count_credentials(), Ok(3));
    assert_eq!(store.find_credential("a", &[1; 32], false), Ok(None));
    for (id, rp_id, user) in [(2, "a", 2), (3, "b", 1), (4, "a", 1)] {
        assert_eq!(
            store.find_credential(rp_id, &[id; 32], false),
            Ok(Some(credential(id, rp_id, user)))
        );
    }
}

#[test]
fn full_store_replaces_but_does_not_add() {
    let mut store = PersistentStore::new(Pddb::new()).unwrap();
    for i in 0..MAX_SUPPORTED_RESIDENTIAL_KEYS {
        store.store_credential(credential(i as u8, "a", i as u8)).unwrap();
    }
    assert_eq!(
        store.store_credential(credential(200, "a", 200)),
        Err(Ctap2StatusCode::CTAP2_ERR_KEY_STORE_FULL)
    );
    assert_eq!(store.find_credential("a", &[200; 32], false), Ok(None));
    // A credential of a known account still finds room.
    assert_eq!(store.store_credential(credential(201, "a", 7)), Ok(()));
    assert_eq!(store.find_credential("a", &[7; 32], false), Ok(None));
    // So does one that reuses a key.
    assert_eq!(store.store_credential(credential(8, "b", 1)), Ok(()));
    assert_eq!(store.count_credentials(), Ok(MAX_SUPPORTED_RESIDENTIAL_KEYS));
}

#[test]
fn replacing_keeps_the_count() {
    let mut store = PersistentStore::new(Pddb::new()).unwrap();
    store.store_credential(credential(1, "a", 1)).unwrap();
    store.store_credential(credential(2, "a", 2)).unwrap();
    // Under a new key, and under the same one.
    store.store_credential(credential(3, "a", 1)).unwrap();
    assert_eq!(store.count_credentials(), Ok(2));
    store.store_credential(credential(3, "a", 1)).unwrap();
    assert_eq!(store.count_credentials(), Ok(2));
    // Under the key of another account, which loses its credential.
    store.store_credential(credential(2, "a", 1)).unwrap();
    assert_eq!(store.count_credentials(), Ok(1));
}

#[test]
fn filtered_credentials_stand_once() {
    let mut store = PersistentStore::new(Pddb::new()).unwrap();
    for i in 0..5 {
        store.store_credential(credential(i, "a", i)).unwrap();
        store.store_credential(credential(100 + i, "b", i)).unwrap();
    }
    let list = store.filter_credential("a", false).unwrap();
    assert_eq!(list.len(), 5);
    for i in 0..5 {
        let wanted = credential(i, "a", i);
        assert_eq!(list.iter().filter(|c| **c == wanted).count(), 1);
    }
    store.reset().unwrap();
    assert_eq!(store.filter_credential("a", false), Ok(vec![]));
}

#[test]
fn retries_stay_within_the_limit() {
    let mut store = PersistentStore::new(Pddb::new()).unwrap();
    for round in 0..3 {
        for _ in 0..10 {
            let before = store.pin_retries().unwrap();
            store.decr_pin_retries().unwrap();
            store.set_pin_hash(&[1; 16]).unwrap();
            assert!(store.pin_retries().unwrap() <= before);
        }
        if round == 1 {
            store.reset().unwrap();
        } else {
            store.reset_pin_retries().unwrap();
        }
        assert_eq!(store.pin_retries(), Ok(8));
    }
}

#[test]
fn counter_is_stored_in_native_order() {
    let mut store = PersistentStore::new(database(
        Dict::Config,
        "GLOBAL_SIGNATURE_COUNTER",
        &0x0102_0304u32.to_ne_bytes(),
    ))
    .unwrap();
    assert_eq!(store.global_signature_counter(), Ok(0x0102_0304));
}

#[test]
fn next_order_is_later() {
    let mut store = PersistentStore::new(Pddb::new()).unwrap();
    for (id, order) in [(1, 5), (2, 9), (3, 2)] {
        let mut new = credential(id, "a", id);
        new.creation_order = order;
        store.store_credential(new).unwrap();
        assert!(store.new_creation_order().unwrap() > order);
    }
    assert_eq!(store.new_creation_order(), Ok(10));
}

#[test]
fn undecodable_credentials() {
    let name = "11".repeat(16);
    let store = PersistentStore::new(database(Dict::Credentials, &name, &[0xff])).unwrap();
    assert_eq!(
        store.find_credential("a", &[0x11; 32], false),
        Err(Ctap2StatusCode::CTAP2_ERR_INVALID_CREDENTIAL)
    );
    assert_eq!(store.filter_credential("a", false), Ok(vec![]));
    assert_eq!(store.count_credentials(), Ok(1));
    assert_eq!(store.new_creation_order(), Ok(1));
}

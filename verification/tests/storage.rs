use rand_core::{OsRng, RngCore};
use vault_storage::credentials::MAX_SUPPORTED_RESIDENTIAL_KEYS;
use vault_storage::data_formats::{
    CredentialProtectionPolicy, PublicKeyCredentialSource, PublicKeyCredentialType,
};
use vault_storage::key_material;
use vault_storage::pddb::Pddb;
use vault_storage::pin::{
    _default_min_pin_length_rp_ids, DEFAULT_MIN_PIN_LENGTH, MAX_PIN_RETRIES, PIN_AUTH_LENGTH,
};
use vault_storage::record_format::{
    _deserialize_min_pin_length_rp_ids, _serialize_min_pin_length_rp_ids, deserialize_credential,
    serialize_credential,
};
use vault_storage::status_code::Ctap2StatusCode;
use vault_storage::storage::PersistentStore;

fn random_32() -> [u8; 32] {
    let mut bytes = [0u8; 32];
    OsRng.fill_bytes(&mut bytes);
    bytes
}

fn create_credential_source(rp_id: &str, user_handle: Vec<u8>) -> PublicKeyCredentialSource {
    PublicKeyCredentialSource {
        key_type: PublicKeyCredentialType::PublicKey,
        credential_id: random_32().to_vec(),
        private_key: random_32(),
        rp_id: String::from(rp_id),
        user_handle,
        user_display_name: None,
        cred_protect_policy: None,
        creation_order: 0,
        user_name: None,
        user_icon: None,
    }
}

#[test]
fn test_store() {
    let mut persistent_store = PersistentStore::new(Pddb::new()).unwrap();
    assert_eq!(persistent_store.count_credentials().unwrap(), 0);
    let credential_source = create_credential_source("example.com", vec![]);
    assert!(persistent_store.store_credential(credential_source).is_ok());
    assert!(persistent_store.count_credentials().unwrap() > 0);
}

#[test]
fn test_credential_order() {
    let mut persistent_store = PersistentStore::new(Pddb::new()).unwrap();
    let credential_source = create_credential_source("example.com", vec![]);
    let current_latest_creation = credential_source.creation_order;
    assert!(persistent_store.store_credential(credential_source).is_ok());
    let mut credential_source = create_credential_source("example.com", vec![]);
    credential_source.creation_order = persistent_store.new_creation_order().unwrap();
    assert!(credential_source.creation_order > current_latest_creation);
    let current_latest_creation = credential_source.creation_order;
    assert!(persistent_store.store_credential(credential_source).is_ok());
    assert!(persistent_store.new_creation_order().unwrap() > current_latest_creation);
}

#[test]
fn test_fill_store() {
    let mut persistent_store = PersistentStore::new(Pddb::new()).unwrap();
    assert_eq!(persistent_store.count_credentials().unwrap(), 0);

    // To make this test work for bigger storages, implement better int -> Vec conversion.
    assert!(MAX_SUPPORTED_RESIDENTIAL_KEYS < 256);
    for i in 0..MAX_SUPPORTED_RESIDENTIAL_KEYS {
        let credential_source = create_credential_source("example.com", vec![i as u8]);
        assert!(persistent_store.store_credential(credential_source).is_ok());
        assert_eq!(persistent_store.count_credentials().unwrap(), i + 1);
    }
    let credential_source =
        create_credential_source("example.com", vec![MAX_SUPPORTED_RESIDENTIAL_KEYS as u8]);
    assert_eq!(
        persistent_store.store_credential(credential_source),
        Err(Ctap2StatusCode::CTAP2_ERR_KEY_STORE_FULL)
    );
    assert_eq!(persistent_store.count_credentials().unwrap(), MAX_SUPPORTED_RESIDENTIAL_KEYS);
}

#[test]
fn test_overwrite() {
    let mut persistent_store = PersistentStore::new(Pddb::new()).unwrap();
    assert_eq!(persistent_store.count_credentials().unwrap(), 0);
    // These should have different IDs.
    let credential_source0 = create_credential_source("example.com", vec![0x00]);
    let credential_source1 = create_credential_source("example.com", vec![0x00]);
    let expected_credential = credential_source1.clone();

    assert!(persistent_store.store_credential(credential_source0).is_ok());
    assert!(persistent_store.store_credential(credential_source1).is_ok());
    assert_eq!(persistent_store.count_credentials().unwrap(), 1);
    assert_eq!(
        &persistent_store.filter_credential("example.com", false).unwrap(),
        &[expected_credential]
    );

    // To make this test work for bigger storages, implement better int -> Vec conversion.
    assert!(MAX_SUPPORTED_RESIDENTIAL_KEYS < 256);
    for i in 0..MAX_SUPPORTED_RESIDENTIAL_KEYS {
        let credential_source = create_credential_source("example.com", vec![i as u8]);
        assert!(persistent_store.store_credential(credential_source).is_ok());
        assert_eq!(persistent_store.count_credentials().unwrap(), i + 1);
    }
    let credential_source =
        create_credential_source("example.com", vec![MAX_SUPPORTED_RESIDENTIAL_KEYS as u8]);
    assert_eq!(
        persistent_store.store_credential(credential_source),
        Err(Ctap2StatusCode::CTAP2_ERR_KEY_STORE_FULL)
    );
    assert_eq!(persistent_store.count_credentials().unwrap(), MAX_SUPPORTED_RESIDENTIAL_KEYS);
}

#[test]
fn test_filter() {
    let mut persistent_store = PersistentStore::new(Pddb::new()).unwrap();
    assert_eq!(persistent_store.count_credentials().unwrap(), 0);
    let credential_source0 = create_credential_source("example.com", vec![0x00]);
    let credential_source1 = create_credential_source("example.com", vec![0x01]);
    let credential_source2 = create_credential_source("another.example.com", vec![0x02]);
    let id0 = credential_source0.credential_id.clone();
    let id1 = credential_source1.credential_id.clone();
    assert!(persistent_store.store_credential(credential_source0).is_ok());
    assert!(persistent_store.store_credential(credential_source1).is_ok());
    assert!(persistent_store.store_credential(credential_source2).is_ok());

    let filtered_credentials = persistent_store.filter_credential("example.com", false).unwrap();
    assert_eq!(filtered_credentials.len(), 2);
    assert!(
        (filtered_credentials[0].credential_id == id0
            && filtered_credentials[1].credential_id == id1)
            || (filtered_credentials[1].credential_id == id0
                && filtered_credentials[0].credential_id == id1)
    );
}

#[test]
fn test_filter_with_cred_protect() {
    let mut persistent_store = PersistentStore::new(Pddb::new()).unwrap();
    assert_eq!(persistent_store.count_credentials().unwrap(), 0);
    let credential = PublicKeyCredentialSource {
        key_type: PublicKeyCredentialType::PublicKey,
        credential_id: random_32().to_vec(),
        private_key: random_32(),
        rp_id: String::from("example.com"),
        user_handle: vec![0x00],
        user_display_name: None,
        cred_protect_policy: Some(
            CredentialProtectionPolicy::UserVerificationOptionalWithCredentialIdList,
        ),
        creation_order: 0,
        user_name: None,
        user_icon: None,
    };
    assert!(persistent_store.store_credential(credential).is_ok());

    let no_credential = persistent_store.filter_credential("example.com", true).unwrap();
    assert_eq!(no_credential, vec![]);
}

#[test]
fn test_find() {
    let mut persistent_store = PersistentStore::new(Pddb::new()).unwrap();
    assert_eq!(persistent_store.count_credentials().unwrap(), 0);
    let credential_source0 = create_credential_source("example.com", vec![0x00]);
    let credential_source1 = create_credential_source("example.com", vec![0x01]);
    let id0 = credential_source0.credential_id.clone();
    let key0 = credential_source0.private_key.clone();
    assert!(persistent_store.store_credential(credential_source0).is_ok());
    assert!(persistent_store.store_credential(credential_source1).is_ok());

    let no_credential =
        persistent_store.find_credential("another.example.com", &id0, false).unwrap();
    assert_eq!(no_credential, None);
    let found_credential = persistent_store.find_credential("example.com", &id0, false).unwrap();
    let expected_credential = PublicKeyCredentialSource {
        key_type: PublicKeyCredentialType::PublicKey,
        credential_id: id0,
        private_key: key0,
        rp_id: String::from("example.com"),
        user_handle: vec![0x00],
        user_display_name: None,
        cred_protect_policy: None,
        creation_order: 0,
        user_name: None,
        user_icon: None,
    };
    assert_eq!(found_credential, Some(expected_credential));
}

#[test]
fn test_find_with_cred_protect() {
    let mut persistent_store = PersistentStore::new(Pddb::new()).unwrap();
    assert_eq!(persistent_store.count_credentials().unwrap(), 0);
    let credential = PublicKeyCredentialSource {
        key_type: PublicKeyCredentialType::PublicKey,
        credential_id: random_32().to_vec(),
        private_key: random_32(),
        rp_id: String::from("example.com"),
        user_handle: vec![0x00],
        user_display_name: None,
        cred_protect_policy: Some(CredentialProtectionPolicy::UserVerificationRequired),
        creation_order: 0,
        user_name: None,
        user_icon: None,
    };
    assert!(persistent_store.store_credential(credential).is_ok());

    let no_credential = persistent_store.find_credential("example.com", &[0x00], true).unwrap();
    assert_eq!(no_credential, None);
}

#[test]
fn test_master_keys() {
    let mut persistent_store = PersistentStore::new(Pddb::new()).unwrap();

    // Master keys stay the same within the same CTAP reset cycle.
    let master_keys_1 = persistent_store.master_keys().unwrap();
    let master_keys_2 = persistent_store.master_keys().unwrap();
    assert_eq!(master_keys_2.encryption, master_keys_1.encryption);
    assert_eq!(master_keys_2.hmac, master_keys_1.hmac);

    // Master keys change after reset. This test may fail if the random generator produces the
    // same keys.
    let master_encryption_key = master_keys_1.encryption.to_vec();
    let master_hmac_key = master_keys_1.hmac.to_vec();
    persistent_store.reset().unwrap();
    let master_keys_3 = persistent_store.master_keys().unwrap();
    assert!(master_keys_3.encryption != master_encryption_key.as_slice());
    assert!(master_keys_3.hmac != master_hmac_key.as_slice());
}

#[test]
fn test_cred_random_secret() {
    let mut persistent_store = PersistentStore::new(Pddb::new()).unwrap();

    // CredRandom secrets stay the same within the same CTAP reset cycle.
    let cred_random_with_uv_1 = persistent_store.cred_random_secret(true).unwrap();
    let cred_random_without_uv_1 = persistent_store.cred_random_secret(false).unwrap();
    let cred_random_with_uv_2 = persistent_store.cred_random_secret(true).unwrap();
    let cred_random_without_uv_2 = persistent_store.cred_random_secret(false).unwrap();
    assert_eq!(cred_random_with_uv_1, cred_random_with_uv_2);
    assert_eq!(cred_random_without_uv_1, cred_random_without_uv_2);

    // CredRandom secrets change after reset. This test may fail if the random generator produces
    // the same keys.
    persistent_store.reset().unwrap();
    let cred_random_with_uv_3 = persistent_store.cred_random_secret(true).unwrap();
    let cred_random_without_uv_3 = persistent_store.cred_random_secret(false).unwrap();
    assert!(cred_random_with_uv_1 != cred_random_with_uv_3);
    assert!(cred_random_without_uv_1 != cred_random_without_uv_3);
}

#[test]
fn test_pin_hash() {
    let mut persistent_store = PersistentStore::new(Pddb::new()).unwrap();

    // Pin hash is initially not set.
    assert!(persistent_store.pin_hash().unwrap().is_none());

    // Setting the pin hash sets the pin hash.
    let random_data = random_32();
    assert_eq!(random_data.len(), 2 * PIN_AUTH_LENGTH);
    let mut pin_hash_1 = [0u8; PIN_AUTH_LENGTH];
    pin_hash_1.copy_from_slice(&random_data[..PIN_AUTH_LENGTH]);
    let mut pin_hash_2 = [0u8; PIN_AUTH_LENGTH];
    pin_hash_2.copy_from_slice(&random_data[PIN_AUTH_LENGTH..]);
    persistent_store.set_pin_hash(&pin_hash_1).unwrap();
    assert_eq!(persistent_store.pin_hash().unwrap(), Some(pin_hash_1));
    assert_eq!(persistent_store.pin_hash().unwrap(), Some(pin_hash_1));
    persistent_store.set_pin_hash(&pin_hash_2).unwrap();
    assert_eq!(persistent_store.pin_hash().unwrap(), Some(pin_hash_2));
    assert_eq!(persistent_store.pin_hash().unwrap(), Some(pin_hash_2));

    // Resetting the storage resets the pin hash.
    persistent_store.reset().unwrap();
    assert!(persistent_store.pin_hash().unwrap().is_none());
}

#[test]
fn test_pin_retries() {
    let mut persistent_store = PersistentStore::new(Pddb::new()).unwrap();

    // The pin retries is initially at the maximum.
    assert_eq!(persistent_store.pin_retries(), Ok(MAX_PIN_RETRIES));

    // Decrementing the pin retries decrements the pin retries.
    for pin_retries in (0..MAX_PIN_RETRIES).rev() {
        persistent_store.decr_pin_retries().unwrap();
        assert_eq!(persistent_store.pin_retries(), Ok(pin_retries));
    }

    // Decrementing the pin retries after zero does not modify the pin retries.
    persistent_store.decr_pin_retries().unwrap();
    assert_eq!(persistent_store.pin_retries(), Ok(0));

    // Resetting the pin retries resets the pin retries.
    persistent_store.reset_pin_retries().unwrap();
    assert_eq!(persistent_store.pin_retries(), Ok(MAX_PIN_RETRIES));
}

#[test]
fn test_persistent_keys() {
    let mut persistent_store = PersistentStore::new(Pddb::new()).unwrap();

    // Make sure the attestation are absent. There is no batch attestation in tests.
    assert!(persistent_store.attestation_private_key().unwrap().is_none());
    assert!(persistent_store.attestation_certificate().unwrap().is_none());

    // Make sure the persistent keys are initialized to dummy values.
    let dummy_key = [0x41u8; key_material::ATTESTATION_PRIVATE_KEY_LENGTH];
    let dummy_cert = [0xddu8; 20];
    persistent_store.set_attestation_private_key(&dummy_key).unwrap();
    persistent_store.set_attestation_certificate(&dummy_cert).unwrap();
    assert_eq!(&persistent_store.aaguid().unwrap(), &key_material::AAGUID);

    // The persistent keys stay initialized and preserve their value after a reset.
    persistent_store.reset().unwrap();
    assert_eq!(&persistent_store.attestation_private_key().unwrap().unwrap(), &dummy_key);
    assert_eq!(persistent_store.attestation_certificate().unwrap().unwrap(), &dummy_cert);
    assert_eq!(&persistent_store.aaguid().unwrap(), &key_material::AAGUID);
}

#[test]
fn test_min_pin_length() {
    let mut persistent_store = PersistentStore::new(Pddb::new()).unwrap();

    // The minimum PIN length is initially at the default.
    assert_eq!(persistent_store.min_pin_length().unwrap(), DEFAULT_MIN_PIN_LENGTH);

    // Changes by the setter are reflected by the getter..
    let new_min_pin_length = 8;
    persistent_store.set_min_pin_length(new_min_pin_length).unwrap();
    assert_eq!(persistent_store.min_pin_length().unwrap(), new_min_pin_length);
}

#[test]
fn test_min_pin_length_rp_ids() {
    let mut persistent_store = PersistentStore::new(Pddb::new()).unwrap();

    // The minimum PIN length RP IDs are initially at the default.
    assert_eq!(
        persistent_store._min_pin_length_rp_ids().unwrap(),
        _default_min_pin_length_rp_ids()
    );

    // Changes by the setter are reflected by the getter.
    let mut rp_ids = vec![String::from("example.com")];
    assert_eq!(persistent_store._set_min_pin_length_rp_ids(rp_ids.clone()), Ok(()));
    for rp_id in _default_min_pin_length_rp_ids() {
        if !rp_ids.contains(&rp_id) {
            rp_ids.push(rp_id);
        }
    }
    assert_eq!(persistent_store._min_pin_length_rp_ids().unwrap(), rp_ids);
}

#[test]
fn test_global_signature_counter() {
    let mut persistent_store = PersistentStore::new(Pddb::new()).unwrap();

    let mut counter_value = 1;
    assert_eq!(persistent_store.global_signature_counter().unwrap(), counter_value);
    for increment in 1..10 {
        assert!(persistent_store.incr_global_signature_counter(increment).is_ok());
        counter_value += increment;
        assert_eq!(persistent_store.global_signature_counter().unwrap(), counter_value);
    }
}

#[test]
fn test_serialize_deserialize_credential() {
    let credential = PublicKeyCredentialSource {
        key_type: PublicKeyCredentialType::PublicKey,
        credential_id: random_32().to_vec(),
        private_key: random_32(),
        rp_id: String::from("example.com"),
        user_handle: vec![0x00],
        user_display_name: None,
        cred_protect_policy: None,
        creation_order: 0,
        user_name: None,
        user_icon: None,
    };
    let serialized = serialize_credential(credential.clone()).unwrap();
    let reconstructed = deserialize_credential(&serialized).unwrap();
    assert_eq!(credential, reconstructed);
}

#[test]
fn test_serialize_deserialize_min_pin_length_rp_ids() {
    let rp_ids = vec![String::from("example.com")];
    let serialized = _serialize_min_pin_length_rp_ids(rp_ids.clone()).unwrap();
    let reconstructed = _deserialize_min_pin_length_rp_ids(&serialized).unwrap();
    assert_eq!(rp_ids, reconstructed);
}

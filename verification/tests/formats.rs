use vault_storage::bytes::{
    array_at, bytes_equal, order_of_one, u32_from_bytes, u32_to_bytes, ByteOrder,
};
use vault_storage::cbor::{Decoded, Record, Scalar};
use vault_storage::data_formats::{
    CredentialProtectionPolicy, PublicKeyCredentialSource, PublicKeyCredentialType,
};
use vault_storage::names::{contains_name, without_name};
use vault_storage::pin::merge_rp_ids;
use vault_storage::record_format::{
    _deserialize_min_pin_length_rp_ids, _serialize_min_pin_length_rp_ids, credential_from_decoded,
    deserialize_credential, record_of_credential, record_of_rp_ids, rp_ids_from_decoded,
    serialize_credential,
};
use vault_storage::short_id::cid_to_str;

fn full_credential() -> PublicKeyCredentialSource {
    PublicKeyCredentialSource {
        key_type: PublicKeyCredentialType::PublicKey,
        credential_id: vec![0xa1, 0xa2],
        private_key: [0x42; 32],
        rp_id: String::from("example.com"),
        user_handle: vec![0x00, 0x01],
        user_display_name: Some(String::from("Display Näme")),
        cred_protect_policy: Some(CredentialProtectionPolicy::UserVerificationRequired),
        creation_order: 500,
        user_name: Some(String::from("name")),
        user_icon: Some(String::from("icon")),
    }
}

fn unsigned(n: u64) -> Option<Scalar> {
    Some(Scalar::Unsigned(n))
}

fn bytes(b: &[u8]) -> Option<Scalar> {
    Some(Scalar::ByteString(b.to_vec()))
}

fn text(t: &str) -> Option<Scalar> {
    Some(Scalar::TextString(String::from(t)))
}

/// The entries of a credential without optional fields.
fn least_entries() -> Vec<(Option<Scalar>, Option<Scalar>)> {
    vec![
        (unsigned(0), bytes(&[0xa1])),
        (unsigned(1), bytes(&[0x42; 32])),
        (unsigned(2), text("rp")),
        (unsigned(3), bytes(&[0x07])),
    ]
}

#[test]
fn short_ids() {
    assert_eq!(cid_to_str(&[]), "");
    assert_eq!(cid_to_str(&[0x00]), "0");
    assert_eq!(cid_to_str(&[0x00, 0x1f, 0xab]), "01fab");
    // Only the first 16 bytes count.
    assert_eq!(cid_to_str(&[0xff; 20]), "ff".repeat(16));
    // Where each byte takes two digits, the digits tell the bytes.
    assert_eq!(cid_to_str(&[0x10; 16]).len(), 32);
    assert!(cid_to_str(&[0x10; 16]) != cid_to_str(&[0x11; 16]));
    assert_eq!(cid_to_str(&[0x0f; 16]).len(), 16);
    // There are no leading zeros.
    assert_eq!(cid_to_str(&[0x01, 0x23]), cid_to_str(&[0x12, 0x03]));
}

#[test]
fn byte_strings() {
    assert!(bytes_equal(&[1, 2], &[1, 2]));
    assert!(!bytes_equal(&[1, 2], &[1, 3]));
    assert!(!bytes_equal(&[1, 2], &[1, 2, 3]));
    assert_eq!(array_at::<2>(&[1, 2, 3, 4], 1), [2, 3]);
}

#[test]
fn byte_orders() {
    let n: u32 = 0x0102_0304;
    assert_eq!(u32_to_bytes(n, ByteOrder::LittleEndian), vec![4, 3, 2, 1]);
    assert_eq!(u32_to_bytes(n, ByteOrder::BigEndian), vec![1, 2, 3, 4]);
    assert_eq!(u32_from_bytes(&[4, 3, 2, 1], ByteOrder::LittleEndian), n);
    assert_eq!(u32_from_bytes(&[1, 2, 3, 4], ByteOrder::BigEndian), n);
    assert_eq!(order_of_one(&[1, 0, 0, 0]), ByteOrder::LittleEndian);
    assert_eq!(order_of_one(&[0, 0, 0, 1]), ByteOrder::BigEndian);
    // The order of the machine.
    let native = ByteOrder::native();
    assert_eq!(u32_to_bytes(n, native), n.to_ne_bytes().to_vec());
    assert_eq!(u32_from_bytes(&n.to_ne_bytes(), native), n);
    assert_eq!(u32_from_bytes(&u32_to_bytes(u32::MAX, native), native), u32::MAX);
}

#[test]
fn name_lists() {
    let names = vec![String::from("a"), String::from("b"), String::from("a")];
    assert!(contains_name(&names, &String::from("b")));
    assert!(!contains_name(&names, &String::from("c")));
    assert_eq!(without_name(names, &String::from("a")), vec![String::from("b")]);
}

#[test]
fn merged_rp_ids() {
    let given = vec![String::from("a"), String::from("b")];
    let more = vec![String::from("b"), String::from("c"), String::from("c")];
    let all = vec![String::from("a"), String::from("b"), String::from("c")];
    assert_eq!(merge_rp_ids(given, more), all);
}

#[test]
fn credential_records() {
    let entries = vec![
        (0, Scalar::ByteString(vec![0xa1, 0xa2])),
        (1, Scalar::ByteString(vec![0x42; 32])),
        (2, Scalar::TextString(String::from("example.com"))),
        (3, Scalar::ByteString(vec![0x00, 0x01])),
        (4, Scalar::TextString(String::from("Display Näme"))),
        (6, Scalar::Unsigned(3)),
        (7, Scalar::Unsigned(500)),
        (8, Scalar::TextString(String::from("name"))),
        (9, Scalar::TextString(String::from("icon"))),
    ];
    assert_eq!(record_of_credential(full_credential()), Record::Entries(entries));
}

#[test]
fn serialized_credentials() {
    let mut credential = full_credential();
    credential.user_display_name = None;
    credential.cred_protect_policy = None;
    credential.user_name = None;
    credential.user_icon = None;
    credential.rp_id = String::from("rp");
    credential.creation_order = 1;
    let mut expected = vec![0xa5, 0x00, 0x42, 0xa1, 0xa2, 0x01, 0x58, 0x20];
    expected.extend_from_slice(&[0x42; 32]);
    expected.extend_from_slice(&[0x02, 0x62, b'r', b'p', 0x03, 0x42, 0x00, 0x01, 0x07, 0x01]);
    assert_eq!(serialize_credential(credential).unwrap(), expected);
}

#[test]
fn deserialized_credentials() {
    let policies = [
        None,
        Some(CredentialProtectionPolicy::UserVerificationOptional),
        Some(CredentialProtectionPolicy::UserVerificationOptionalWithCredentialIdList),
        Some(CredentialProtectionPolicy::UserVerificationRequired),
    ];
    for policy in policies {
        let mut credential = full_credential();
        credential.cred_protect_policy = policy;
        let data = serialize_credential(credential.clone()).unwrap();
        assert_eq!(deserialize_credential(&data), Some(credential));
    }
    // Something follows, something is missing, or there is nothing at all.
    let mut data = serialize_credential(full_credential()).unwrap();
    data.push(0x00);
    assert_eq!(deserialize_credential(&data), None);
    data.truncate(10);
    assert_eq!(deserialize_credential(&data), None);
    assert_eq!(deserialize_credential(&[]), None);
}

#[test]
fn decoded_credentials() {
    let least = credential_from_decoded(Some(Decoded::Entries(least_entries()))).unwrap();
    assert_eq!(least.credential_id, vec![0xa1]);
    assert_eq!(least.private_key, [0x42; 32]);
    assert_eq!(least.rp_id, "rp");
    assert_eq!(least.user_handle, vec![0x07]);
    assert_eq!(least.user_display_name, None);
    assert_eq!(least.cred_protect_policy, None);
    assert_eq!(least.creation_order, 0);
    assert_eq!(least.user_name, None);
    assert_eq!(least.user_icon, None);
    // Unknown fields are passed over.
    let mut entries = least_entries();
    entries.push((unsigned(5), bytes(&[1])));
    entries.push((text("key"), None));
    assert_eq!(credential_from_decoded(Some(Decoded::Entries(entries))), Some(least));
}

#[test]
fn no_credentials() {
    assert_eq!(credential_from_decoded(None), None);
    assert_eq!(credential_from_decoded(Some(Decoded::Items(vec![]))), None);
    assert_eq!(credential_from_decoded(Some(Decoded::Single(unsigned(0)))), None);
    // Each required field is missing in turn.
    for i in 0..4 {
        let mut entries = least_entries();
        entries.remove(i);
        assert_eq!(credential_from_decoded(Some(Decoded::Entries(entries))), None);
    }
    // A field is of another type, or holds what it may not.
    let wrong = [
        (0, text("id")),
        (1, bytes(&[0x42; 31])),
        (2, bytes(&[1])),
        (3, None),
    ];
    for (tag, item) in wrong {
        let mut entries = least_entries();
        entries[tag as usize] = (unsigned(tag), item);
        assert_eq!(credential_from_decoded(Some(Decoded::Entries(entries))), None);
    }
    let wrong = [
        (4, unsigned(1)),
        (6, unsigned(0)),
        (6, unsigned(4)),
        (6, text("1")),
        (7, bytes(&[])),
        (8, None),
        (9, unsigned(1)),
    ];
    for (tag, item) in wrong {
        let mut entries = least_entries();
        entries.push((unsigned(tag), item));
        assert_eq!(credential_from_decoded(Some(Decoded::Entries(entries))), None);
    }
}

#[test]
fn rp_id_records() {
    let rp_ids = vec![String::from("a"), String::from("bc")];
    let items = vec![
        Scalar::TextString(String::from("a")),
        Scalar::TextString(String::from("bc")),
    ];
    assert_eq!(record_of_rp_ids(rp_ids.clone()), Record::Items(items));
    let data = _serialize_min_pin_length_rp_ids(rp_ids.clone()).unwrap();
    assert_eq!(data, vec![0x82, 0x61, b'a', 0x62, b'b', b'c']);
    assert_eq!(_deserialize_min_pin_length_rp_ids(&data), Some(rp_ids));
    assert_eq!(_deserialize_min_pin_length_rp_ids(&[0x80]), Some(vec![]));
}

#[test]
fn no_rp_ids() {
    assert_eq!(_deserialize_min_pin_length_rp_ids(&[]), None);
    assert_eq!(_deserialize_min_pin_length_rp_ids(&[0x81]), None);
    // A number among the texts, or no array.
    assert_eq!(_deserialize_min_pin_length_rp_ids(&[0x82, 0x61, b'a', 0x01]), None);
    assert_eq!(_deserialize_min_pin_length_rp_ids(&[0x61, b'a']), None);
    assert_eq!(rp_ids_from_decoded(None), None);
    assert_eq!(rp_ids_from_decoded(Some(Decoded::Items(vec![text("a"), None]))), None);
    assert_eq!(rp_ids_from_decoded(Some(Decoded::Items(vec![]))), Some(vec![]));
}

#[test]
fn nesting_is_limited() {
    let mut credential = full_credential();
    credential.user_icon = None;
    let data = serialize_credential(credential.clone()).unwrap();
    assert_eq!(data[0], 0xa8);
    // An unknown field holds arrays within each other, down to the limit and one level deeper.
    let with_field = |nested: &[u8]| {
        let mut longer = data.clone();
        longer[0] = 0xa9;
        longer.push(0x0a);
        longer.extend_from_slice(nested);
        longer
    };
    let deepest = with_field(&[0x81, 0x81, 0x81, 0x00]);
    assert_eq!(deserialize_credential(&deepest), Some(credential));
    let too_deep = with_field(&[0x81, 0x81, 0x81, 0x81, 0x00]);
    assert_eq!(deserialize_credential(&too_deep), None);
}

#[test]
fn discoverability() {
    let mut credential = full_credential();
    assert!(!credential.is_discoverable());
    assert!(credential.requires_user_verification());
    credential.cred_protect_policy =
        Some(CredentialProtectionPolicy::UserVerificationOptionalWithCredentialIdList);
    assert!(!credential.is_discoverable());
    assert!(!credential.requires_user_verification());
    credential.cred_protect_policy = Some(CredentialProtectionPolicy::UserVerificationOptional);
    assert!(credential.is_discoverable());
    credential.cred_protect_policy = None;
    assert!(credential.is_discoverable());
}

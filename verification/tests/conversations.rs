use vault_storage::attestation::{
    set_aaguid, set_attestation_certificate, set_attestation_private_key, ReadAaguid,
    ReadAttestationCertificate, ReadAttestationPrivateKey,
};
use vault_storage::bytes::ByteOrder;
use vault_storage::counter::{GlobalSignatureCounter, IncrGlobalSignatureCounter};
use vault_storage::credentials::{
    CountCredentials, FilterCredential, FindCredential, NewCreationOrder,
};
use vault_storage::data_formats::{PublicKeyCredentialSource, PublicKeyCredentialType};
use vault_storage::init::{Init, Material, Reset, Source};
use vault_storage::key_material;
use vault_storage::pin::{
    _set_min_pin_length_rp_ids, set_min_pin_length, set_pin_hash, DecrPinRetries,
    ReadMinPinLength, ReadMinPinLengthRpIds, ReadPinHash, ReadPinRetries, ResetPinRetries,
};
use vault_storage::record_format::serialize_credential;
use vault_storage::request::{Dict, Operation, Query, Reply, Request, Step};
use vault_storage::secrets::{ReadCredRandomSecret, ReadMasterKeys};
use vault_storage::status_code::Ctap2StatusCode;
use vault_storage::store_credential::StoreCredential;

const INTERNAL: Ctap2StatusCode = Ctap2StatusCode::CTAP2_ERR_VENDOR_INTERNAL_ERROR;

/// Runs an operation on prepared replies. Returns what it asked, and how it ended.
fn run<O: Operation>(operation: O, replies: Vec<Reply>) -> (Vec<Request>, O::Output) {
    let mut operation = operation;
    let mut asked = vec![];
    for reply in replies {
        asked.push(operation.request());
        match operation.resume(reply) {
            Step::Ask(next) => operation = next,
            Step::Return(result) => return (asked, result),
        }
    }
    panic!("the operation goes on");
}

fn fetch(dict: Dict, key: &str, limit: Option<usize>) -> Request {
    Request::Fetch { dict, key: String::from(key), create_key: false, hint: None, limit }
}

fn read_credential(name: &str) -> Request {
    Request::Fetch {
        dict: Dict::Credentials,
        key: String::from(name),
        create_key: false,
        hint: Some(112),
        limit: None,
    }
}

fn write(dict: Dict, key: &str, hint: usize, data: &[u8]) -> Request {
    Request::Write { dict, key: String::from(key), hint: Some(hint), data: data.to_vec() }
}

fn delete(dict: Dict, key: &str) -> Request {
    Request::DeleteKey { dict, key: String::from(key) }
}

fn measure(dict: Dict, key: &str, hint: usize) -> Request {
    Request::Measure { dict, key: String::from(key), hint: Some(hint) }
}

fn names(list: &[&str]) -> Reply {
    Reply::Names(list.iter().map(|n| String::from(*n)).collect())
}

fn credential(id: u8, rp_id: &str, user: u8, order: u64) -> PublicKeyCredentialSource {
    PublicKeyCredentialSource {
        key_type: PublicKeyCredentialType::PublicKey,
        credential_id: vec![id; 32],
        private_key: [id; 32],
        rp_id: String::from(rp_id),
        user_handle: vec![user],
        user_display_name: None,
        cred_protect_policy: None,
        creation_order: order,
        user_name: None,
        user_icon: None,
    }
}

fn record(id: u8, rp_id: &str, user: u8, order: u64) -> Reply {
    Reply::Data(serialize_credential(credential(id, rp_id, user, order)).unwrap())
}

fn material() -> Source {
    Source::Given(Material { master_keys: Some([0xaa; 64]), cred_random: Some([0xbb; 64]) })
}

/// Replies that tell of a failure, whatever was asked.
fn failures() -> Vec<Reply> {
    vec![Reply::Refused, Reply::Failed]
}

#[test]
fn dictionary_names() {
    assert_eq!(Dict::Config.name(), "fido.cfg");
    assert_eq!(Dict::Credentials.name(), "fido.cred");
    assert_eq!(Dict::Persistent.name(), "fido.persistent");
}

#[test]
fn initializing_an_empty_database() {
    let replies = vec![
        Reply::Length(0),
        Reply::Written(64),
        Reply::Length(0),
        Reply::Written(64),
        Reply::Length(0),
        Reply::Written(16),
    ];
    let (asked, result) = run(Init::new(material()), replies);
    assert_eq!(result, Ok(()));
    assert_eq!(
        asked,
        vec![
            measure(Dict::Config, "MASTER_KEYS", 64),
            write(Dict::Config, "MASTER_KEYS", 64, &[0xaa; 64]),
            measure(Dict::Credentials, "CRED_RANDOM_SECRET", 64),
            write(Dict::Credentials, "CRED_RANDOM_SECRET", 64, &[0xbb; 64]),
            measure(Dict::Persistent, "AAGUID", 16),
            write(Dict::Persistent, "AAGUID", 16, &key_material::AAGUID),
        ]
    );
}

#[test]
fn initializing_draws_secrets() {
    let replies = || {
        vec![
            Reply::Length(0),
            Reply::Written(64),
            Reply::Length(0),
            Reply::Written(64),
            Reply::Length(0),
            Reply::Written(16),
        ]
    };
    let (first, result) = run(Init::new(Source::System), replies());
    assert_eq!(result, Ok(()));
    let (second, _) = run(Init::new(Source::System), replies());
    // The secrets differ, unless the same ones were drawn twice.
    assert!(first[1] != second[1]);
    assert!(first[3] != second[3]);
    assert_eq!(first[5], second[5]);
    assert_eq!(first[5], write(Dict::Persistent, "AAGUID", 16, &key_material::AAGUID));
}

#[test]
fn initializing_again() {
    let replies = vec![Reply::Length(64), Reply::Length(64), Reply::Length(16)];
    let (asked, result) = run(Init::new(material()), replies);
    assert_eq!(result, Ok(()));
    assert_eq!(asked.len(), 3);
}

#[test]
fn initializing_a_corrupted_database() {
    let corrupted = Err(Ctap2StatusCode::CTAP2_ERR_INVALID_CREDENTIAL);
    assert_eq!(run(Init::new(material()), vec![Reply::Length(63)]).1, corrupted);
    let replies = vec![Reply::Length(64), Reply::Length(16)];
    assert_eq!(run(Init::new(material()), replies).1, corrupted);
    let replies = vec![Reply::Length(64), Reply::Length(64), Reply::Length(64)];
    assert_eq!(run(Init::new(material()), replies).1, corrupted);
}

#[test]
fn initializing_without_randomness() {
    let none = || Source::Given(Material { master_keys: None, cred_random: None });
    assert_eq!(run(Init::new(none()), vec![Reply::Length(0)]).1, Err(INTERNAL));
    let replies = vec![Reply::Length(64), Reply::Length(0)];
    assert_eq!(run(Init::new(none()), replies).1, Err(INTERNAL));
    // The AAGUID is not random.
    let replies =
        vec![Reply::Length(64), Reply::Length(64), Reply::Length(0), Reply::Written(16)];
    assert_eq!(run(Init::new(none()), replies).1, Ok(()));
    let replies = vec![Reply::Deleted, Reply::Deleted, Reply::Length(0)];
    assert_eq!(run(Reset::new(none()), replies).1, Err(INTERNAL));
}

#[test]
fn initializing_may_fail() {
    for failure in failures() {
        assert_eq!(run(Init::new(material()), vec![failure]).1, Err(INTERNAL));
    }
    for failure in failures() {
        let replies = vec![Reply::Length(0), failure];
        assert_eq!(run(Init::new(material()), replies).1, Err(INTERNAL));
    }
}

#[test]
fn resetting() {
    let replies = vec![
        Reply::Deleted,
        Reply::NotFound,
        Reply::Length(0),
        Reply::Written(64),
        Reply::Length(0),
        Reply::Written(64),
        Reply::Length(16),
    ];
    let (asked, result) = run(Reset::new(material()), replies);
    assert_eq!(result, Ok(()));
    assert_eq!(asked[0], Request::DeleteDict { dict: Dict::Config });
    assert_eq!(asked[1], Request::DeleteDict { dict: Dict::Credentials });
    assert_eq!(asked[2], measure(Dict::Config, "MASTER_KEYS", 64));
    assert_eq!(asked[6], measure(Dict::Persistent, "AAGUID", 16));
    assert_eq!(run(Reset::new(material()), vec![Reply::Refused]).1, Err(INTERNAL));
    let replies = vec![Reply::Deleted, Reply::Refused];
    assert_eq!(run(Reset::new(material()), replies).1, Err(INTERNAL));
    let replies = vec![Reply::Deleted, Reply::Deleted, Reply::Refused];
    assert_eq!(run(Reset::new(material()), replies).1, Err(INTERNAL));
}

#[test]
fn finding() {
    let find = |id: u8, rp_id: &str| FindCredential {
        rp_id: String::from(rp_id),
        credential_id: vec![id; 32],
        check_cred_protect: false,
    };
    let name = "11".repeat(16);
    assert_eq!(find(0x11, "a").request(), read_credential(&name));
    assert_eq!(
        find(0x11, "a").outcome(record(0x11, "a", 1, 0)),
        Ok(Some(credential(0x11, "a", 1, 0)))
    );
    // Another relying party, or another ID under the same key.
    assert_eq!(find(0x11, "b").outcome(record(0x11, "a", 1, 0)), Ok(None));
    assert_eq!(find(0x12, "a").outcome(record(0x11, "a", 1, 0)), Ok(None));
    assert_eq!(find(0x11, "a").outcome(Reply::NotFound), Ok(None));
    assert_eq!(
        find(0x11, "a").outcome(Reply::Data(vec![0xff])),
        Err(Ctap2StatusCode::CTAP2_ERR_INVALID_CREDENTIAL)
    );
    for failure in failures() {
        assert_eq!(find(0x11, "a").outcome(failure), Err(INTERNAL));
    }
}

#[test]
fn counting() {
    assert_eq!(CountCredentials.request(), Request::ListKeys { dict: Dict::Credentials });
    assert_eq!(CountCredentials.outcome(names(&["1", "CRED_RANDOM_SECRET", "2"])), Ok(2));
    assert_eq!(CountCredentials.outcome(Reply::NotFound), Err(INTERNAL));
    assert_eq!(CountCredentials.outcome(Reply::Refused), Err(INTERNAL));
}

#[test]
fn filtering() {
    let replies = vec![
        names(&["1", "CRED_RANDOM_SECRET", "2", "3", "4", "5"]),
        record(1, "a", 1, 0),
        record(2, "b", 1, 0),
        // What cannot be opened or deserialized is passed over.
        Reply::Refused,
        Reply::Data(vec![0xff]),
        record(5, "a", 2, 0),
    ];
    let (asked, result) = run(FilterCredential::new(String::from("a"), false), replies);
    assert_eq!(result, Ok(vec![credential(1, "a", 1, 0), credential(5, "a", 2, 0)]));
    assert_eq!(asked[0], Request::ListKeys { dict: Dict::Credentials });
    for (i, name) in ["1", "2", "3", "4", "5"].iter().enumerate() {
        assert_eq!(asked[i + 1], read_credential(name));
    }
}

#[test]
fn filtering_may_fail() {
    let filter = || FilterCredential::new(String::from("a"), false);
    assert_eq!(run(filter(), vec![names(&[])]).1, Ok(vec![]));
    assert_eq!(run(filter(), vec![Reply::NotFound]).1, Err(INTERNAL));
    assert_eq!(run(filter(), vec![Reply::Refused]).1, Err(INTERNAL));
    assert_eq!(run(filter(), vec![names(&["1"]), Reply::NotFound]).1, Ok(vec![]));
    assert_eq!(run(filter(), vec![names(&["1"]), Reply::Failed]).1, Err(INTERNAL));
}

#[test]
fn creation_orders() {
    let order = |replies| run(NewCreationOrder::new(), replies).1;
    assert_eq!(order(vec![names(&[])]), Ok(0));
    assert_eq!(order(vec![names(&["CRED_RANDOM_SECRET"])]), Ok(0));
    assert_eq!(order(vec![names(&["1"]), record(1, "a", 1, 0)]), Ok(1));
    let replies = vec![names(&["1", "2"]), record(1, "a", 1, 9), record(2, "a", 2, 4)];
    assert_eq!(order(replies), Ok(10));
    // A key that holds no credential still counts as one.
    assert_eq!(order(vec![names(&["1"]), Reply::Data(vec![])]), Ok(1));
    // In the end the order wraps around.
    assert_eq!(order(vec![names(&["1"]), record(1, "a", 1, u64::MAX)]), Ok(0));
    assert_eq!(order(vec![Reply::Refused]), Err(INTERNAL));
    assert_eq!(order(vec![names(&["1"]), Reply::Failed]), Err(INTERNAL));
}

#[test]
fn storing_a_first_credential() {
    let new = credential(0x11, "a", 1, 0);
    let data = serialize_credential(new.clone()).unwrap();
    let name = "11".repeat(16);
    let replies =
        vec![names(&["CRED_RANDOM_SECRET"]), Reply::NotFound, Reply::Written(data.len())];
    let (asked, result) = run(StoreCredential::new(new).unwrap(), replies);
    assert_eq!(result, Ok(()));
    assert_eq!(
        asked,
        vec![
            Request::ListKeys { dict: Dict::Credentials },
            fetch(Dict::Credentials, &name, None),
            write(Dict::Credentials, &name, 512, &data),
        ]
    );
}

#[test]
fn storing_replaces_the_account() {
    let new = credential(0x11, "a", 1, 0);
    let data = serialize_credential(new.clone()).unwrap();
    let name = "11".repeat(16);
    // The own key is in use, and two other credentials belong to the account.
    let replies = vec![
        names(&["2", &name, "3", "4"]),
        record(2, "a", 1, 0),
        record(0x11, "a", 1, 0),
        record(3, "b", 1, 0),
        record(4, "a", 1, 0),
        Reply::Data(vec![0; 1000]),
        Reply::Written(data.len()),
        Reply::Deleted,
        Reply::Written(data.len()),
        Reply::Deleted,
        Reply::NotFound,
    ];
    let (asked, result) = run(StoreCredential::new(new).unwrap(), replies);
    assert_eq!(result, Ok(()));
    assert_eq!(asked[5], fetch(Dict::Credentials, &name, None));
    assert_eq!(asked[6], write(Dict::Credentials, &name, 512, &data));
    assert_eq!(asked[7], delete(Dict::Credentials, &name));
    assert_eq!(asked[8], write(Dict::Credentials, &name, 512, &data));
    assert_eq!(asked[9], delete(Dict::Credentials, "2"));
    assert_eq!(asked[10], delete(Dict::Credentials, "4"));
}

#[test]
fn storing_passes_over_what_cannot_be_read() {
    let start = || StoreCredential::new(credential(0x11, "a", 1, 0)).unwrap();
    let name = "11".repeat(16);
    for unreadable in [Reply::Failed, Reply::Refused, Reply::NotFound, Reply::Data(vec![])] {
        let replies = vec![names(&["1"]), unreadable, Reply::NotFound, Reply::Written(1)];
        let (asked, result) = run(start(), replies);
        assert_eq!(result, Ok(()));
        assert_eq!(asked[1], read_credential("1"));
        assert_eq!(asked[2], fetch(Dict::Credentials, &name, None));
    }
    // A list that cannot be had is no such thing.
    assert_eq!(run(start(), vec![Reply::Failed]).1, Err(INTERNAL));
}

#[test]
fn storing_may_fail() {
    let start = || StoreCredential::new(credential(0x11, "a", 1, 0)).unwrap();
    let name = "11".repeat(16);
    assert_eq!(run(start(), vec![Reply::Refused]).1, Err(INTERNAL));
    let replies = vec![names(&[]), Reply::NotFound, Reply::Failed];
    assert_eq!(run(start(), replies).1, Err(INTERNAL));
    let replies = vec![names(&[]), Reply::NotFound, Reply::NotFound];
    assert_eq!(run(start(), replies).1, Err(INTERNAL));
    let replies = vec![names(&[&name]), record(0x11, "a", 1, 0), Reply::Refused];
    assert_eq!(run(start(), replies).1, Err(INTERNAL));
    let replies = vec![
        names(&["1"]),
        record(1, "a", 1, 0),
        Reply::NotFound,
        Reply::Written(1),
        Reply::Refused,
    ];
    assert_eq!(run(start(), replies).1, Err(INTERNAL));
}

#[test]
fn storing_in_a_full_store() {
    let list: Vec<String> = (0..150).map(|i| format!("x{}", i)).collect();
    let mut replies = vec![Reply::Names(list)];
    for _ in 0..150 {
        replies.push(Reply::NotFound);
    }
    let (asked, result) = run(StoreCredential::new(credential(1, "a", 1, 0)).unwrap(), replies);
    assert_eq!(result, Err(Ctap2StatusCode::CTAP2_ERR_KEY_STORE_FULL));
    assert_eq!(asked.len(), 151);
}

#[test]
fn signature_counter() {
    let counter = || GlobalSignatureCounter::new(ByteOrder::LittleEndian);
    let read = || Request::Fetch {
        dict: Dict::Config,
        key: String::from("GLOBAL_SIGNATURE_COUNTER"),
        create_key: true,
        hint: Some(4),
        limit: Some(4),
    };
    let (asked, result) = run(counter(), vec![Reply::Data(vec![1, 2, 0, 0])]);
    assert_eq!(result, Ok(513));
    assert_eq!(asked, vec![read()]);
    let replies = vec![Reply::Data(vec![]), Reply::Written(4)];
    let (asked, result) = run(counter(), replies);
    assert_eq!(result, Ok(1));
    let start = write(Dict::Config, "GLOBAL_SIGNATURE_COUNTER", 4, &[1, 0, 0, 0]);
    assert_eq!(asked, vec![read(), start]);
    for failure in [Reply::NotFound, Reply::Refused, Reply::Failed] {
        assert_eq!(run(counter(), vec![failure]).1, Err(INTERNAL));
    }
    let replies = vec![Reply::Data(vec![1]), Reply::Failed];
    assert_eq!(run(counter(), replies).1, Err(INTERNAL));
}

#[test]
fn signature_counter_in_the_other_order() {
    let counter = || GlobalSignatureCounter::new(ByteOrder::BigEndian);
    assert_eq!(run(counter(), vec![Reply::Data(vec![0, 0, 2, 1])]).1, Ok(513));
    let (asked, result) = run(counter(), vec![Reply::Data(vec![]), Reply::Written(4)]);
    assert_eq!(result, Ok(1));
    assert_eq!(asked[1], write(Dict::Config, "GLOBAL_SIGNATURE_COUNTER", 4, &[0, 0, 0, 1]));
    let incr = IncrGlobalSignatureCounter::new(3, ByteOrder::BigEndian);
    let (asked, result) = run(incr, vec![Reply::Data(vec![0, 0, 2, 1]), Reply::Written(4)]);
    assert_eq!(result, Ok(()));
    assert_eq!(asked[1], write(Dict::Config, "GLOBAL_SIGNATURE_COUNTER", 4, &[0, 0, 2, 4]));
}

#[test]
fn signature_counter_increments() {
    let incr = |n| IncrGlobalSignatureCounter::new(n, ByteOrder::LittleEndian);
    let replies = vec![Reply::Data(vec![0xff, 0xff, 0xff, 0xff]), Reply::Written(4)];
    let (asked, result) = run(incr(3), replies);
    assert_eq!(result, Ok(()));
    // The counter wraps around.
    assert_eq!(asked[1], write(Dict::Config, "GLOBAL_SIGNATURE_COUNTER", 4, &[2, 0, 0, 0]));
    let replies = vec![Reply::Data(vec![]), Reply::Written(4), Reply::Written(4)];
    let (asked, result) = run(incr(5), replies);
    assert_eq!(result, Ok(()));
    assert_eq!(asked[2], write(Dict::Config, "GLOBAL_SIGNATURE_COUNTER", 4, &[6, 0, 0, 0]));
    assert_eq!(run(incr(1), vec![Reply::Refused]).1, Err(INTERNAL));
    let replies = vec![Reply::Data(vec![1, 0, 0, 0]), Reply::Refused];
    assert_eq!(run(incr(1), replies).1, Err(INTERNAL));
}

#[test]
fn secrets() {
    assert_eq!(ReadMasterKeys.request(), fetch(Dict::Config, "MASTER_KEYS", Some(64)));
    let mut data = vec![1; 32];
    data.extend_from_slice(&[2; 32]);
    let keys = ReadMasterKeys.outcome(Reply::Data(data.clone())).ok().unwrap();
    assert_eq!(keys.encryption, [1; 32]);
    assert_eq!(keys.hmac, [2; 32]);
    assert_eq!(ReadMasterKeys.outcome(Reply::Data(vec![1; 63])).err(), Some(INTERNAL));
    assert_eq!(ReadMasterKeys.outcome(Reply::NotFound).err(), Some(INTERNAL));
    let with_uv = || ReadCredRandomSecret { has_uv: true };
    let without_uv = || ReadCredRandomSecret { has_uv: false };
    assert_eq!(
        with_uv().request(),
        fetch(Dict::Credentials, "CRED_RANDOM_SECRET", Some(64))
    );
    assert_eq!(without_uv().outcome(Reply::Data(data.clone())), Ok([1; 32]));
    assert_eq!(with_uv().outcome(Reply::Data(data)), Ok([2; 32]));
    assert_eq!(with_uv().outcome(Reply::Data(vec![1; 63])), Err(INTERNAL));
    assert_eq!(with_uv().outcome(Reply::NotFound), Err(INTERNAL));
}

#[test]
fn pin_hashes() {
    assert_eq!(ReadPinHash.request(), fetch(Dict::Config, "PIN_HASH", Some(16)));
    assert_eq!(ReadPinHash.outcome(Reply::Data(vec![7; 16])), Ok(Some([7; 16])));
    assert_eq!(ReadPinHash.outcome(Reply::NotFound), Ok(None));
    assert_eq!(ReadPinHash.outcome(Reply::Data(vec![7; 15])), Err(INTERNAL));
    for failure in failures() {
        assert_eq!(ReadPinHash.outcome(failure), Err(INTERNAL));
    }
    let set = || set_pin_hash(&[7; 16]);
    assert_eq!(set().request(), write(Dict::Config, "PIN_HASH", 16, &[7; 16]));
    assert_eq!(set().outcome(Reply::Written(16)), Ok(()));
    // All of it has to be written.
    assert_eq!(set().outcome(Reply::Written(15)), Err(INTERNAL));
    assert_eq!(set().outcome(Reply::NotFound), Err(INTERNAL));
}

#[test]
fn pin_retries() {
    assert_eq!(ReadPinRetries.request(), fetch(Dict::Config, "PIN_RETRIES", Some(1)));
    assert_eq!(ReadPinRetries.outcome(Reply::Data(vec![3])), Ok(3));
    assert_eq!(ReadPinRetries.outcome(Reply::NotFound), Ok(8));
    assert_eq!(ReadPinRetries.outcome(Reply::Data(vec![])), Err(INTERNAL));
    assert_eq!(ReadPinRetries.outcome(Reply::Refused), Err(INTERNAL));
    let (asked, result) =
        run(DecrPinRetries::new(), vec![Reply::NotFound, Reply::Written(1)]);
    assert_eq!(result, Ok(()));
    assert_eq!(asked[1], write(Dict::Config, "PIN_RETRIES", 1, &[7]));
    // Nothing is written at the end.
    let (asked, result) = run(DecrPinRetries::new(), vec![Reply::Data(vec![0])]);
    assert_eq!(result, Ok(()));
    assert_eq!(asked.len(), 1);
    assert_eq!(run(DecrPinRetries::new(), vec![Reply::Refused]).1, Err(INTERNAL));
    let replies = vec![Reply::Data(vec![2]), Reply::Failed];
    assert_eq!(run(DecrPinRetries::new(), replies).1, Err(INTERNAL));
    assert_eq!(ResetPinRetries.request(), delete(Dict::Config, "PIN_RETRIES"));
    assert_eq!(ResetPinRetries.outcome(Reply::Deleted), Ok(()));
    assert_eq!(ResetPinRetries.outcome(Reply::NotFound), Ok(()));
    assert_eq!(ResetPinRetries.outcome(Reply::Refused), Err(INTERNAL));
}

#[test]
fn min_pin_lengths() {
    assert_eq!(ReadMinPinLength.request(), fetch(Dict::Config, "MIN_PIN_LENGTH", Some(1)));
    assert_eq!(ReadMinPinLength.outcome(Reply::Data(vec![6])), Ok(6));
    assert_eq!(ReadMinPinLength.outcome(Reply::NotFound), Ok(4));
    assert_eq!(ReadMinPinLength.outcome(Reply::Refused), Err(INTERNAL));
    let set = || set_min_pin_length(6);
    assert_eq!(set().request(), write(Dict::Config, "MIN_PIN_LENGTH", 1, &[6]));
    assert_eq!(set().outcome(Reply::Written(1)), Ok(()));
    assert_eq!(set().outcome(Reply::Written(0)), Err(INTERNAL));
    assert_eq!(set().outcome(Reply::Refused), Err(INTERNAL));
}

#[test]
fn min_pin_length_rp_ids() {
    let read = ReadMinPinLengthRpIds;
    assert_eq!(read.request(), fetch(Dict::Config, "MIN_PIN_LENGTH_RP_IDS", None));
    let list = vec![String::from("a")];
    let data = vec![0x81, 0x61, b'a'];
    assert_eq!(ReadMinPinLengthRpIds.outcome(Reply::Data(data.clone())), Ok(list.clone()));
    for reply in [Reply::Data(vec![0xff]), Reply::NotFound, Reply::Refused] {
        assert_eq!(ReadMinPinLengthRpIds.outcome(reply), Ok(vec![]));
    }
    assert_eq!(ReadMinPinLengthRpIds.outcome(Reply::Failed), Err(INTERNAL));
    let set = || _set_min_pin_length_rp_ids(vec![String::from("a")]).unwrap();
    let (asked, result) = run(set(), vec![Reply::NotFound, Reply::Written(3)]);
    assert_eq!(result, Ok(()));
    assert_eq!(asked[0], fetch(Dict::Config, "MIN_PIN_LENGTH_RP_IDS", None));
    assert_eq!(asked[1], write(Dict::Config, "MIN_PIN_LENGTH_RP_IDS", 8, &data));
    assert_eq!(run(set(), vec![Reply::Refused]).1, Err(INTERNAL));
    assert_eq!(run(set(), vec![Reply::NotFound, Reply::Failed]).1, Err(INTERNAL));
    // There may be eight of them.
    assert!(_set_min_pin_length_rp_ids(vec![String::from("a"); 8]).is_ok());
    assert_eq!(
        _set_min_pin_length_rp_ids(vec![String::from("a"); 9]),
        Err(Ctap2StatusCode::CTAP2_ERR_KEY_STORE_FULL)
    );
}

#[test]
fn attestation() {
    let read = ReadAttestationPrivateKey;
    assert_eq!(read.request(), fetch(Dict::Persistent, "ATTESTATION_PRIVATE_KEY", Some(32)));
    assert_eq!(ReadAttestationPrivateKey.outcome(Reply::Data(vec![9; 32])), Ok(Some([9; 32])));
    assert_eq!(ReadAttestationPrivateKey.outcome(Reply::NotFound), Ok(None));
    assert_eq!(ReadAttestationPrivateKey.outcome(Reply::Data(vec![9; 31])), Err(INTERNAL));
    assert_eq!(ReadAttestationPrivateKey.outcome(Reply::Refused), Err(INTERNAL));
    let set = || set_attestation_private_key(&[9; 32]);
    assert_eq!(
        set().request(),
        write(Dict::Persistent, "ATTESTATION_PRIVATE_KEY", 32, &[9; 32])
    );
    assert_eq!(set().outcome(Reply::Written(32)), Ok(()));
    assert_eq!(set().outcome(Reply::Failed), Err(INTERNAL));

    let read = ReadAttestationCertificate;
    assert_eq!(read.request(), fetch(Dict::Persistent, "ATTESTATION_CERTIFICATE", None));
    assert_eq!(ReadAttestationCertificate.outcome(Reply::Data(vec![1])), Ok(Some(vec![1])));
    assert_eq!(ReadAttestationCertificate.outcome(Reply::NotFound), Ok(None));
    assert_eq!(ReadAttestationCertificate.outcome(Reply::Refused), Ok(None));
    assert_eq!(ReadAttestationCertificate.outcome(Reply::Failed), Err(INTERNAL));
}

#[test]
fn replacing_values() {
    let key = "ATTESTATION_CERTIFICATE";
    let set = || set_attestation_certificate(&[1, 2]);
    let written = || write(Dict::Persistent, key, 1024, &[1, 2]);
    // A value that is not longer, or cannot be read, is written over.
    for old_value in [Reply::NotFound, Reply::Data(vec![7, 7]), Reply::Failed] {
        let (asked, result) = run(set(), vec![old_value, Reply::Written(2)]);
        assert_eq!(result, Ok(()));
        assert_eq!(asked, vec![fetch(Dict::Persistent, key, None), written()]);
    }
    // A longer one is removed, once the new one was written.
    let old_value = || Reply::Data(vec![7; 3]);
    let replies = vec![old_value(), Reply::Written(2), Reply::Deleted, Reply::Written(2)];
    let (asked, result) = run(set(), replies);
    assert_eq!(result, Ok(()));
    let deleted = delete(Dict::Persistent, key);
    assert_eq!(
        asked,
        vec![fetch(Dict::Persistent, key, None), written(), deleted, written()]
    );
    // A write that fails leaves the old value: nothing was deleted.
    let (asked, result) = run(set(), vec![old_value(), Reply::Failed]);
    assert_eq!(result, Err(INTERNAL));
    assert_eq!(asked.len(), 2);
    assert_eq!(run(set(), vec![Reply::Refused]).1, Err(INTERNAL));
    let replies = vec![old_value(), Reply::Written(2), Reply::Refused];
    assert_eq!(run(set(), replies).1, Err(INTERNAL));
    let replies = vec![old_value(), Reply::Written(2), Reply::Deleted, Reply::Failed];
    assert_eq!(run(set(), replies).1, Err(INTERNAL));
}

#[test]
fn aaguids() {
    assert_eq!(ReadAaguid.request(), fetch(Dict::Persistent, "AAGUID", Some(16)));
    assert_eq!(ReadAaguid.outcome(Reply::Data(vec![5; 16])), Ok([5; 16]));
    assert_eq!(ReadAaguid.outcome(Reply::NotFound), Ok([0; 16]));
    assert_eq!(ReadAaguid.outcome(Reply::Refused), Ok([0; 16]));
    assert_eq!(ReadAaguid.outcome(Reply::Data(vec![5; 15])), Err(INTERNAL));
    assert_eq!(ReadAaguid.outcome(Reply::Failed), Err(INTERNAL));
    let set = || set_aaguid(&[5; 16]);
    assert_eq!(set().request(), write(Dict::Persistent, "AAGUID", 16, &[5; 16]));
    assert_eq!(set().outcome(Reply::Written(16)), Ok(()));
    assert_eq!(set().outcome(Reply::NotFound), Err(INTERNAL));
}

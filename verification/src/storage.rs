//! The persistent store of the authenticator.
use vstd::prelude::*;
use vstd::slice::slice_to_vec;
use crate::attestation::{
    set_aaguid, set_attestation_certificate, set_attestation_private_key, ReadAaguid,
    ReadAttestationCertificate, ReadAttestationPrivateKey,
};
use crate::bytes::ByteOrder;
use crate::counter::{GlobalSignatureCounter, IncrGlobalSignatureCounter};
use crate::credentials::{
    CountCredentials, FilterCredential, FindCredential, NewCreationOrder,
};
use crate::data_formats::PublicKeyCredentialSource;
use crate::init::{Init, Material, Reset, Source, CRED_RANDOM_SIZE, MASTER_KEYS_SIZE};
use crate::key;
use crate::key_material::{AAGUID_LENGTH, ATTESTATION_PRIVATE_KEY_LENGTH};
use crate::pddb::Pddb;
use crate::pin::{
    set_min_pin_length, set_pin_hash, DecrPinRetries, ReadMinPinLength, ReadMinPinLengthRpIds,
    ReadPinHash, ReadPinRetries, ResetPinRetries, PIN_AUTH_LENGTH, _set_min_pin_length_rp_ids,
};
use crate::request::{Operation, Query, Step};
use crate::secrets::{MasterKeys, ReadCredRandomSecret, ReadMasterKeys};
use crate::status_code::Ctap2StatusCode;
use crate::store_credential::StoreCredential;
use crate::values::ReplaceValue;

verus! {

use crate::attestation::{
    aaguid_in, aaguid_set, certificate_in, certificate_result, certificate_set, private_key_in,
    private_key_set,
};
use crate::counter::{
    counter_incremented, counter_left, counter_progress, counter_read, incr_left, incr_progress,
    lemma_counter_step, lemma_incr_step,
};
use crate::credential_laws::{lemma_stored, one_per_account};
use crate::credentials::{
    count_in, count_result, credential_in, found_result, is_next_order, is_stored, lemma_count,
    lemma_latest, list_result, lists_credentials,
};
use crate::data_formats::CredentialView;
use crate::init::{
    init_done, init_left, init_progress, init_resume, init_step, initialized,
    lemma_init_step, lemma_initialized, lemma_reset_step, reset_done, reset_left, reset_progress,
    reset_resume, reset_stage, reset_step, with_drawn, with_drawn_anew,
};
use crate::laws::init_is_idempotent;
use crate::names::texts;
use crate::pddb::{value, without_key, Contents};
use crate::pin::{
    decr_left, decr_progress, default_rp_ids, lemma_decr_step, merged, min_pin_length_in,
    min_pin_length_set, pin_hash_in, pin_hash_set, pin_retries_decremented, pin_retries_in,
    pin_retries_reset, rp_ids_in, rp_ids_result, rp_ids_set,
};
use crate::record_format::{credential_bytes, stored_credential};
use crate::request::Dict;
use crate::scan::{lemma_scan, scan_left, scan_progress, scan_stage};
use crate::secrets::{cred_random_in, master_keys_in, master_keys_result};
use crate::short_id::short_id;
use crate::store_credential::{
    credential_stored, lemma_store_start, lemma_store_step, store_left, store_progress, store_stage,
};
use crate::values::{
    array_result, lemma_head_is_first, lemma_replace_step, optional_array_result, replace_left,
    replace_progress, replaced,
};

/// CTAP persistent storage.
pub struct PersistentStore {
    pddb: Pddb,
    byte_order: ByteOrder,
}

/// What a store is: what its database holds, and the order in which the bytes of the signature
/// counter are stored.
pub struct StoreState {
    pub db: Contents,
    pub byte_order: ByteOrder,
}

impl View for PersistentStore {
    type V = StoreState;

    closed spec fn view(&self) -> StoreState {
        StoreState { db: self.pddb@, byte_order: self.byte_order }
    }
}

impl PersistentStore {
    /// Gives access to the persistent store, in the byte order of the machine.
    ///
    /// Fails if the database is corrupted, or if a secret is missing and there is no randomness to
    /// draw it from.
    pub fn new(pddb: Pddb) -> (result: Result<PersistentStore, Ctap2StatusCode>)
        ensures
            match result {
                Ok(store) => {
                    &&& initialized(store@.db)
                    &&& exists|material: Material|
                        (#[trigger] init_done(pddb@, material)).0 is Ok && init_done(
                            pddb@,
                            material,
                        ).1 == store@.db
                },
                Err(code) => exists|material: Material|
                    (#[trigger] init_done(pddb@, material)).0 == Err::<(), _>(code),
            },
            initialized(pddb@) ==> result is Ok && result->Ok_0@.db == pddb@,
    {
        PersistentStore::with_byte_order(pddb, ByteOrder::native())
    }

    /// Gives access to the persistent store, in a given byte order.
    pub fn with_byte_order(pddb: Pddb, order: ByteOrder) -> (result: Result<
        PersistentStore,
        Ctap2StatusCode,
    >)
        ensures
            match result {
                Ok(store) => {
                    &&& store@.byte_order == order
                    &&& initialized(store@.db)
                    &&& exists|material: Material|
                        (#[trigger] init_done(pddb@, material)).0 is Ok && init_done(
                            pddb@,
                            material,
                        ).1 == store@.db
                },
                Err(code) => exists|material: Material|
                    (#[trigger] init_done(pddb@, material)).0 == Err::<(), _>(code),
            },
            initialized(pddb@) ==> result is Ok && result->Ok_0@.db == pddb@,
    {
        let mut store = PersistentStore { pddb, byte_order: order };
        let result = store.init();
        proof {
            let material = choose|material: Material| #[trigger]
                init_done(pddb@, material) == (result, store@.db);
            lemma_initialized(pddb@, material);
            if initialized(pddb@) {
                init_is_idempotent(pddb@, material);
            }
        }
        match result {
            Ok(_) => Ok(store),
            Err(code) => Err(code),
        }
    }

    /// Gives the database back.
    pub fn into_pddb(self) -> (pddb: Pddb)
        ensures
            pddb@ == self@.db,
    {
        self.pddb
    }

    /// Initializes the store by creating missing objects. Randomness is drawn only for a secret
    /// that is missing.
    pub fn init(&mut self) -> (result: Result<(), Ctap2StatusCode>)
        ensures
            final(self)@.byte_order == old(self)@.byte_order,
            exists|material: Material| #[trigger]
                init_done(old(self)@.db, material) == (result, final(self)@.db),
    {
        self.init_from(Source::System)
    }

    /// Initializes the store. Missing secrets are taken from `material`.
    pub fn init_with(&mut self, material: Material) -> (result: Result<(), Ctap2StatusCode>)
        ensures
            final(self)@.byte_order == old(self)@.byte_order,
            (result, final(self)@.db) == init_done(old(self)@.db, material),
    {
        self.init_from(Source::Given(material))
    }

    fn init_from(&mut self, source: Source) -> (result: Result<(), Ctap2StatusCode>)
        ensures
            final(self)@.byte_order == old(self)@.byte_order,
            exists|material: Material| #[trigger]
                init_done(old(self)@.db, material) == (result, final(self)@.db) && source.allows(
                    material,
                ),
    {
        let ghost mut material = source.some_material();
        let mut init = Init::new(source);
        loop
            invariant
                self@.byte_order == old(self)@.byte_order,
                init@.source() == source,
                source.allows(material),
                init_progress(old(self)@.db, self@.db, init@, material),
            decreases init_left(init@),
        {
            let ghost before = self@.db;
            let ghost at = init@;
            let reply = self.pddb.perform(init.request());
            let ghost answer = reply@;
            let step = init.resume(reply);
            proof {
                let drawn = choose|drawn: Material| #[trigger]
                    at.source().allows(drawn) && init_step(step) == init_resume(at, answer, drawn);
                lemma_init_step(old(self)@.db, before, at, material, answer, self@.db, drawn);
                material = with_drawn(material, at, drawn);
            }
            match step {
                Step::Ask(next) => {
                    init = next;
                },
                Step::Return(result) => {
                    assert(init_done(old(self)@.db, material) == (result, self@.db));
                    return result;
                },
            }
        }
    }

    /// Returns the first matching credential.
    ///
    /// Returns `None` if no credentials are matched or if `check_cred_protect` is set and the first
    /// matched credential requires user verification.
    pub fn find_credential(
        &self,
        rp_id: &str,
        credential_id: &[u8],
        check_cred_protect: bool,
    ) -> (result: Result<Option<PublicKeyCredentialSource>, Ctap2StatusCode>)
        ensures
            found_result(result) == credential_in(
                self@.db,
                rp_id@,
                credential_id@,
                check_cred_protect,
            ),
    {
        let find = FindCredential {
            rp_id: rp_id.to_owned(),
            credential_id: slice_to_vec(credential_id),
            check_cred_protect,
        };
        let reply = self.pddb.query(find.request());
        find.outcome(reply)
    }

    /// Stores or updates a credential.
    ///
    /// If a credential with the same RP id and user handle already exists, it is replaced.
    pub fn store_credential(
        &mut self,
        new_credential: PublicKeyCredentialSource,
    ) -> (result: Result<(), Ctap2StatusCode>)
        ensures
            final(self)@.byte_order == old(self)@.byte_order,
            (result, final(self)@.db) == credential_stored(old(self)@.db, new_credential@),
            result is Ok ==> {
                let keys = final(self)@.db[Dict::Credentials];
                &&& credential_in(
                    final(self)@.db,
                    new_credential@.rp_id,
                    new_credential@.credential_id,
                    false,
                ) == Ok::<_, Ctap2StatusCode>(Some(new_credential@))
                &&& is_stored(keys, short_id(new_credential@.credential_id), new_credential@)
                &&& forall|name: Seq<char>, other: CredentialView| #[trigger]
                    is_stored(keys, name, other) && new_credential@.same_account(other) ==> other
                        == new_credential@
                &&& one_per_account(old(self)@.db[Dict::Credentials]) ==> one_per_account(keys)
            },
    {
        let ghost c = new_credential@;
        let ghost mut names = Seq::<Seq<char>>::empty();
        let mut store = match StoreCredential::new(new_credential) {
            Ok(store) => store,
            Err(code) => {
                return Err(code);
            },
        };
        proof {
            lemma_store_start(self@.db, names, c);
        }
        loop
            invariant
                self@.byte_order == old(self)@.byte_order,
                store_progress(old(self)@.db, names, c, self@.db, store@),
                c == new_credential@,
                stored_credential(credential_bytes(c)) == Some(c),
            decreases store_stage(store@), store_left(store@),
        {
            let ghost before = self@.db;
            let ghost at = store@;
            let reply = self.pddb.perform(store.request());
            proof {
                names = lemma_store_step(old(self)@.db, names, c, before, at, reply@, self@.db);
            }
            match store.resume(reply) {
                Step::Ask(next) => {
                    store = next;
                },
                Step::Return(result) => {
                    proof {
                        if result is Ok {
                            lemma_stored(old(self)@.db, c);
                        }
                    }
                    return result;
                },
            }
        }
    }

    /// Returns the list of matching credentials.
    ///
    /// Does not return credentials that are not discoverable if `check_cred_protect` is set.
    pub fn filter_credential(&self, rp_id: &str, check_cred_protect: bool) -> (result: Result<
        Vec<PublicKeyCredentialSource>,
        Ctap2StatusCode,
    >)
        ensures
            match list_result(result) {
                Ok(list) => {
                    &&& self@.db.contains_key(Dict::Credentials)
                    &&& lists_credentials(
                        list,
                        self@.db[Dict::Credentials],
                        rp_id@,
                        check_cred_protect,
                    )
                },
                Err(code) => {
                    &&& !self@.db.contains_key(Dict::Credentials)
                    &&& code == Ctap2StatusCode::CTAP2_ERR_VENDOR_INTERNAL_ERROR
                },
            },
    {
        let mut filter = FilterCredential::new(rp_id.to_owned(), check_cred_protect);
        let ghost mut names = Seq::<Seq<char>>::empty();
        loop
            invariant
                filter@.rp_id == rp_id@,
                filter@.check_cred_protect == check_cred_protect,
                filter@.scan is Reading ==> self@.db.contains_key(Dict::Credentials),
                scan_progress(self@.db[Dict::Credentials], names, filter@.scan),
            decreases scan_stage(filter@.scan), scan_left(filter@.scan),
        {
            let ghost scan = filter@.scan;
            let reply = self.pddb.query(filter.request());
            proof {
                if self@.db.contains_key(Dict::Credentials) {
                    names = lemma_scan(self@.db, names, scan, reply@);
                }
            }
            match filter.resume(reply) {
                Step::Ask(next) => {
                    filter = next;
                },
                Step::Return(result) => {
                    return result;
                },
            }
        }
    }

    /// Returns the number of credentials.
    pub fn count_credentials(&self) -> (result: Result<usize, Ctap2StatusCode>)
        ensures
            count_result(result) == count_in(self@.db),
            result is Ok ==> self@.db[Dict::Credentials].dom().finite(),
    {
        let count = CountCredentials;
        let reply = self.pddb.query(count.request());
        proof {
            if self@.db.contains_key(Dict::Credentials) {
                lemma_count(reply@->Names_0, self@.db[Dict::Credentials]);
            }
        }
        count.outcome(reply)
    }

    /// Returns the next creation order.
    pub fn new_creation_order(&self) -> (result: Result<u64, Ctap2StatusCode>)
        ensures
            match result {
                Ok(order) => {
                    &&& self@.db.contains_key(Dict::Credentials)
                    &&& self@.db[Dict::Credentials].dom().finite()
                    &&& is_next_order(self@.db[Dict::Credentials], order)
                },
                Err(code) => {
                    &&& !self@.db.contains_key(Dict::Credentials)
                    &&& code == Ctap2StatusCode::CTAP2_ERR_VENDOR_INTERNAL_ERROR
                },
            },
    {
        let mut order = NewCreationOrder::new();
        let ghost mut names = Seq::<Seq<char>>::empty();
        loop
            invariant
                order@ is Reading ==> self@.db.contains_key(Dict::Credentials),
                scan_progress(self@.db[Dict::Credentials], names, order@),
            decreases scan_stage(order@), scan_left(order@),
        {
            let ghost scan = order@;
            let reply = self.pddb.query(order.request());
            proof {
                if self@.db.contains_key(Dict::Credentials) {
                    names = lemma_scan(self@.db, names, scan, reply@);
                    lemma_count(names, self@.db[Dict::Credentials]);
                    lemma_latest(names, self@.db[Dict::Credentials]);
                }
            }
            match order.resume(reply) {
                Step::Ask(next) => {
                    order = next;
                },
                Step::Return(result) => {
                    return result;
                },
            }
        }
    }

    /// Returns the global signature counter.
    pub fn global_signature_counter(&mut self) -> (result: Result<u32, Ctap2StatusCode>)
        ensures
            final(self)@.byte_order == old(self)@.byte_order,
            (result, final(self)@.db) == counter_read(old(self)@.db, old(self)@.byte_order),
    {
        let ghost end = counter_read(self@.db, self@.byte_order);
        let mut counter = GlobalSignatureCounter::new(self.byte_order);
        loop
            invariant
                self@.byte_order == old(self)@.byte_order,
                counter_progress(self@.db, counter, end),
                end == counter_read(old(self)@.db, old(self)@.byte_order),
            decreases counter_left(counter),
        {
            let ghost before = self@.db;
            let reply = self.pddb.perform(counter.request());
            proof {
                lemma_counter_step(before, counter, reply@, self@.db, end);
            }
            match counter.resume(reply) {
                Step::Ask(next) => {
                    counter = next;
                },
                Step::Return(result) => {
                    return result;
                },
            }
        }
    }

    /// Increments the global signature counter.
    pub fn incr_global_signature_counter(&mut self, increment: u32) -> (result: Result<
        (),
        Ctap2StatusCode,
    >)
        ensures
            final(self)@.byte_order == old(self)@.byte_order,
            (result, final(self)@.db) == counter_incremented(
                old(self)@.db,
                increment,
                old(self)@.byte_order,
            ),
    {
        let mut incr = IncrGlobalSignatureCounter::new(increment, self.byte_order);
        loop
            invariant
                self@.byte_order == old(self)@.byte_order,
                incr_progress(old(self)@.db, self@.db, incr, increment, old(self)@.byte_order),
            decreases incr_left(incr),
        {
            let ghost before = self@.db;
            let reply = self.pddb.perform(incr.request());
            proof {
                lemma_incr_step(
                    old(self)@.db,
                    before,
                    incr,
                    increment,
                    old(self)@.byte_order,
                    reply@,
                    self@.db,
                );
            }
            match incr.resume(reply) {
                Step::Ask(next) => {
                    incr = next;
                },
                Step::Return(result) => {
                    return result;
                },
            }
        }
    }

    /// Returns the master keys.
    pub fn master_keys(&self) -> (result: Result<MasterKeys, Ctap2StatusCode>)
        ensures
            master_keys_result(result) == master_keys_in(self@.db),
    {
        let read = ReadMasterKeys;
        let reply = self.pddb.query(read.request());
        proof {
            let v = value(self@.db, Dict::Config, key::MASTER_KEYS@)->0;
            lemma_head_is_first(v, MASTER_KEYS_SIZE);
        }
        read.outcome(reply)
    }

    /// Returns the CredRandom secret.
    pub fn cred_random_secret(&self, has_uv: bool) -> (result: Result<[u8; 32], Ctap2StatusCode>)
        ensures
            array_result(result) == cred_random_in(self@.db, has_uv),
    {
        let read = ReadCredRandomSecret { has_uv };
        let reply = self.pddb.query(read.request());
        proof {
            let v = value(self@.db, Dict::Credentials, key::CRED_RANDOM_SECRET@)->0;
            lemma_head_is_first(v, CRED_RANDOM_SIZE);
        }
        read.outcome(reply)
    }

    /// Returns the PIN hash if defined.
    pub fn pin_hash(&self) -> (result: Result<Option<[u8; PIN_AUTH_LENGTH]>, Ctap2StatusCode>)
        ensures
            optional_array_result(result) == pin_hash_in(self@.db),
    {
        let read = ReadPinHash;
        let reply = self.pddb.query(read.request());
        proof {
            lemma_head_is_first(value(self@.db, Dict::Config, key::PIN_HASH@)->0, PIN_AUTH_LENGTH);
        }
        read.outcome(reply)
    }

    /// Sets the PIN hash.
    ///
    /// If it was already defined, it is updated.
    pub fn set_pin_hash(&mut self, pin_hash: &[u8; PIN_AUTH_LENGTH]) -> (result: Result<
        (),
        Ctap2StatusCode,
    >)
        ensures
            final(self)@.byte_order == old(self)@.byte_order,
            (result, final(self)@.db) == pin_hash_set(old(self)@.db, pin_hash@),
    {
        let write = set_pin_hash(pin_hash);
        let reply = self.pddb.perform(write.request());
        write.outcome(reply)
    }

    /// Returns the number of remaining PIN retries.
    pub fn pin_retries(&self) -> (result: Result<u8, Ctap2StatusCode>)
        ensures
            result == pin_retries_in(self@.db),
    {
        let read = ReadPinRetries;
        let reply = self.pddb.query(read.request());
        read.outcome(reply)
    }

    /// Decrements the number of remaining PIN retries.
    pub fn decr_pin_retries(&mut self) -> (result: Result<(), Ctap2StatusCode>)
        ensures
            final(self)@.byte_order == old(self)@.byte_order,
            (result, final(self)@.db) == pin_retries_decremented(old(self)@.db),
    {
        let mut decr = DecrPinRetries::new();
        loop
            invariant
                self@.byte_order == old(self)@.byte_order,
                decr_progress(old(self)@.db, self@.db, decr),
            decreases decr_left(decr),
        {
            let ghost before = self@.db;
            let reply = self.pddb.perform(decr.request());
            proof {
                lemma_decr_step(old(self)@.db, before, decr, reply@, self@.db);
            }
            match decr.resume(reply) {
                Step::Ask(next) => {
                    decr = next;
                },
                Step::Return(result) => {
                    return result;
                },
            }
        }
    }

    /// Resets the number of remaining PIN retries.
    pub fn reset_pin_retries(&mut self) -> (result: Result<(), Ctap2StatusCode>)
        ensures
            final(self)@.byte_order == old(self)@.byte_order,
            result is Ok,
            final(self)@.db == pin_retries_reset(old(self)@.db),
    {
        let reset = ResetPinRetries;
        let reply = self.pddb.perform(reset.request());
        proof {
            let keys = old(self)@.db[Dict::Config];
            let key = key::PIN_RETRIES@;
            if !keys.contains_key(key) {
                assert(keys.remove(key) =~= keys);
                assert(without_key(old(self)@.db, Dict::Config, key) =~= old(self)@.db);
            }
        }
        reset.outcome(reply)
    }

    /// Returns the minimum PIN length.
    pub fn min_pin_length(&self) -> (result: Result<u8, Ctap2StatusCode>)
        ensures
            result == min_pin_length_in(self@.db),
    {
        let read = ReadMinPinLength;
        let reply = self.pddb.query(read.request());
        read.outcome(reply)
    }

    /// Sets the minimum PIN length.
    pub fn set_min_pin_length(&mut self, min_pin_length: u8) -> (result: Result<
        (),
        Ctap2StatusCode,
    >)
        ensures
            final(self)@.byte_order == old(self)@.byte_order,
            (result, final(self)@.db) == min_pin_length_set(old(self)@.db, min_pin_length),
    {
        let write = set_min_pin_length(min_pin_length);
        let reply = self.pddb.perform(write.request());
        write.outcome(reply)
    }

    /// Returns the list of RP IDs that are used to check if reading the minimum PIN length is
    /// allowed.
    pub fn _min_pin_length_rp_ids(&self) -> (result: Result<Vec<String>, Ctap2StatusCode>)
        ensures
            rp_ids_result(result) == Ok::<_, Ctap2StatusCode>(rp_ids_in(self@.db)),
    {
        let read = ReadMinPinLengthRpIds;
        let reply = self.pddb.query(read.request());
        read.outcome(reply)
    }

    /// Sets the list of RP IDs that are used to check if reading the minimum PIN length is allowed.
    pub fn _set_min_pin_length_rp_ids(&mut self, min_pin_length_rp_ids: Vec<String>) -> (result:
        Result<(), Ctap2StatusCode>)
        ensures
            final(self)@.byte_order == old(self)@.byte_order,
            (result, final(self)@.db) == rp_ids_set(old(self)@.db, texts(min_pin_length_rp_ids@)),
            result is Ok ==> rp_ids_in(final(self)@.db) == merged(
                texts(min_pin_length_rp_ids@),
                default_rp_ids(),
            ),
    {
        match _set_min_pin_length_rp_ids(min_pin_length_rp_ids) {
            Ok(replace) => self.replace(replace),
            Err(code) => Err(code),
        }
    }

    /// Returns the attestation private key if defined.
    pub fn attestation_private_key(&self) -> (result: Result<
        Option<[u8; ATTESTATION_PRIVATE_KEY_LENGTH]>,
        Ctap2StatusCode,
    >)
        ensures
            optional_array_result(result) == private_key_in(self@.db),
    {
        let read = ReadAttestationPrivateKey;
        let reply = self.pddb.query(read.request());
        proof {
            let v = value(self@.db, Dict::Persistent, key::ATTESTATION_PRIVATE_KEY@)->0;
            lemma_head_is_first(v, ATTESTATION_PRIVATE_KEY_LENGTH);
        }
        read.outcome(reply)
    }

    /// Sets the attestation private key.
    ///
    /// If it is already defined, it is overwritten.
    pub fn set_attestation_private_key(
        &mut self,
        attestation_private_key: &[u8; ATTESTATION_PRIVATE_KEY_LENGTH],
    ) -> (result: Result<(), Ctap2StatusCode>)
        ensures
            final(self)@.byte_order == old(self)@.byte_order,
            (result, final(self)@.db) == private_key_set(old(self)@.db, attestation_private_key@),
    {
        let write = set_attestation_private_key(attestation_private_key);
        let reply = self.pddb.perform(write.request());
        write.outcome(reply)
    }

    /// Returns the attestation certificate if defined.
    pub fn attestation_certificate(&self) -> (result: Result<Option<Vec<u8>>, Ctap2StatusCode>)
        ensures
            certificate_result(result) == Ok::<_, Ctap2StatusCode>(certificate_in(self@.db)),
    {
        let read = ReadAttestationCertificate;
        let reply = self.pddb.query(read.request());
        read.outcome(reply)
    }

    /// Sets the attestation certificate.
    ///
    /// If it is already defined, it is overwritten.
    pub fn set_attestation_certificate(
        &mut self,
        attestation_certificate: &[u8],
    ) -> (result: Result<(), Ctap2StatusCode>)
        ensures
            final(self)@.byte_order == old(self)@.byte_order,
            (result, final(self)@.db) == certificate_set(old(self)@.db, attestation_certificate@),
    {
        self.replace(set_attestation_certificate(attestation_certificate))
    }

    /// Returns the AAGUID.
    pub fn aaguid(&self) -> (result: Result<[u8; AAGUID_LENGTH], Ctap2StatusCode>)
        ensures
            array_result(result) == aaguid_in(self@.db),
    {
        let read = ReadAaguid;
        let reply = self.pddb.query(read.request());
        proof {
            lemma_head_is_first(value(self@.db, Dict::Persistent, key::AAGUID@)->0, AAGUID_LENGTH);
        }
        read.outcome(reply)
    }

    /// Sets the AAGUID.
    ///
    /// If it is already defined, it is overwritten.
    pub fn set_aaguid(&mut self, aaguid: &[u8; AAGUID_LENGTH]) -> (result: Result<
        (),
        Ctap2StatusCode,
    >)
        ensures
            final(self)@.byte_order == old(self)@.byte_order,
            (result, final(self)@.db) == aaguid_set(old(self)@.db, aaguid@),
    {
        let write = set_aaguid(aaguid);
        let reply = self.pddb.perform(write.request());
        write.outcome(reply)
    }

    /// Resets the store as for a CTAP reset.
    ///
    /// In particular persistent entries are not reset.
    pub fn reset(&mut self) -> (result: Result<(), Ctap2StatusCode>)
        ensures
            final(self)@.byte_order == old(self)@.byte_order,
            exists|material: Material| #[trigger]
                reset_done(old(self)@.db, material) == (result, final(self)@.db),
    {
        self.reset_from(Source::System)
    }

    /// Resets the store as for a CTAP reset. The new secrets are taken from `material`.
    pub fn reset_with(&mut self, material: Material) -> (result: Result<(), Ctap2StatusCode>)
        ensures
            final(self)@.byte_order == old(self)@.byte_order,
            (result, final(self)@.db) == reset_done(old(self)@.db, material),
    {
        self.reset_from(Source::Given(material))
    }

    fn reset_from(&mut self, source: Source) -> (result: Result<(), Ctap2StatusCode>)
        ensures
            final(self)@.byte_order == old(self)@.byte_order,
            exists|material: Material| #[trigger]
                reset_done(old(self)@.db, material) == (result, final(self)@.db) && source.allows(
                    material,
                ),
    {
        let ghost mut material = source.some_material();
        let mut reset = Reset::new(source);
        loop
            invariant
                self@.byte_order == old(self)@.byte_order,
                reset@.source() == source,
                source.allows(material),
                reset_progress(old(self)@.db, self@.db, reset@, material),
            decreases reset_stage(reset@), reset_left(reset@),
        {
            let ghost before = self@.db;
            let ghost at = reset@;
            let reply = self.pddb.perform(reset.request());
            let ghost answer = reply@;
            let step = reset.resume(reply);
            proof {
                let drawn = choose|drawn: Material| #[trigger]
                    at.source().allows(drawn) && reset_step(step) == reset_resume(
                        at,
                        answer,
                        drawn,
                    );
                lemma_reset_step(old(self)@.db, before, at, material, answer, self@.db, drawn);
                material = with_drawn_anew(material, at, drawn);
            }
            match step {
                Step::Ask(next) => {
                    reset = next;
                },
                Step::Return(result) => {
                    assert(reset_done(old(self)@.db, material) == (result, self@.db));
                    return result;
                },
            }
        }
    }

    fn replace(&mut self, start: ReplaceValue) -> (result: Result<(), Ctap2StatusCode>)
        requires
            start@ is Checking,
        ensures
            final(self)@.byte_order == old(self)@.byte_order,
            ({
                let target = start@->Checking_target;
                (result, final(self)@.db) == replaced(
                    old(self)@.db,
                    target.dict,
                    target.key,
                    target.data,
                )
            }),
    {
        let ghost target = start@->Checking_target;
        let mut replace = start;
        loop
            invariant
                self@.byte_order == old(self)@.byte_order,
                target == start@->Checking_target,
                replace_progress(old(self)@.db, self@.db, replace@, target),
            decreases replace_left(replace@),
        {
            let ghost before = self@.db;
            let ghost at = replace@;
            let reply = self.pddb.perform(replace.request());
            proof {
                lemma_replace_step(old(self)@.db, before, at, target, reply@, self@.db);
            }
            match replace.resume(reply) {
                Step::Ask(next) => {
                    replace = next;
                },
                Step::Return(result) => {
                    return result;
                },
            }
        }
    }
}

} // verus!

//! What looking up, listing and storing credentials means for the database.
use vstd::prelude::*;
use crate::data_formats::CredentialProtectionPolicy;

verus! {

use crate::credentials::{
    count_in, credential_in, is_latest, is_next_order, is_stored,
    lists_credentials, selected, successor,
};
use crate::data_formats::CredentialView;
use crate::database_laws::held;
use crate::key;
use crate::names::{lemma_others, lemma_push_contains};
use crate::pddb::{lists, Contents, DictView};
use crate::record_format::{credential_bytes, stored_credential};
use crate::request::Dict;
use crate::scan::{credential_names, credential_under, credentials_under};
use crate::short_id::{lemma_short_id_is_not_secret, short_id};
use crate::status_code::Ctap2StatusCode;
use crate::store_credential::{credential_stored, in_account, pending, superseded};

/// Whether a credential lies under a key.
pub open spec fn lies_under(keys: DictView, name: Seq<char>, credential: CredentialView) -> bool {
    &&& name != key::CRED_RANDOM_SECRET@
    &&& keys.contains_key(name)
    &&& stored_credential(keys[name]) == Some(credential)
}

/// The names for a stored credential mean the same.
proof fn lemma_lies_under(keys: DictView, name: Seq<char>, credential: CredentialView)
    ensures
        lies_under(keys, name, credential) == is_stored(keys, name, credential),
{
}

// ---------------- looking up ----------------------

/// A lookup gives the credential under the key of the ID if it has that ID and belongs to that
/// relying party, unless the check is on and its policy requires user verification. Otherwise it
/// gives nothing. It fails only on a record that is no credential.
pub proof fn lookup_gives_the_credential_of_the_id(
    db: Contents,
    rp_id: Seq<char>,
    credential_id: Seq<u8>,
    check_cred_protect: bool,
)
    ensures
        ({
            let result = credential_in(db, rp_id, credential_id, check_cred_protect);
            match held(db, Dict::Credentials, short_id(credential_id)) {
                None => result is Ok && result->Ok_0 is None,
                Some(data) => match stored_credential(data) {
                    None => result is Err && result->Err_0
                        == Ctap2StatusCode::CTAP2_ERR_INVALID_CREDENTIAL,
                    Some(c) => {
                        &&& result is Ok
                        &&& result->Ok_0 is Some <==> {
                            &&& c.credential_id == credential_id
                            &&& c.rp_id == rp_id
                            &&& !check_cred_protect || c.cred_protect_policy != Some(
                                CredentialProtectionPolicy::UserVerificationRequired,
                            )
                        }
                        &&& result->Ok_0 is Some ==> result->Ok_0->0 == c
                    },
                },
            }
        }),
{
}

/// The check hides a credential exactly where its policy requires user verification, whatever its
/// other fields hold. Without the check it is always found.
pub proof fn check_hides_only_the_protected(db: Contents, c: CredentialView)
    requires
        held(db, Dict::Credentials, short_id(c.credential_id)) is Some,
        stored_credential(held(db, Dict::Credentials, short_id(c.credential_id))->0) == Some(c),
    ensures
        credential_in(db, c.rp_id, c.credential_id, true) == Ok::<
            Option<CredentialView>,
            Ctap2StatusCode,
        >(None) <==> c.cred_protect_policy == Some(
            CredentialProtectionPolicy::UserVerificationRequired,
        ),
        c.cred_protect_policy != Some(CredentialProtectionPolicy::UserVerificationRequired)
            ==> credential_in(db, c.rp_id, c.credential_id, true) == Ok::<_, Ctap2StatusCode>(
            Some(c),
        ),
        credential_in(db, c.rp_id, c.credential_id, false) == Ok::<_, Ctap2StatusCode>(Some(c)),
{
}

// ---------------- counting ----------------------

/// The count is the number of keys, without that of the CredRandom secrets.
pub proof fn count_is_the_number_of_keys(db: Contents)
    ensures
        !db.contains_key(Dict::Credentials) ==> count_in(db) is Err && count_in(db)->Err_0
            == Ctap2StatusCode::CTAP2_ERR_VENDOR_INTERNAL_ERROR,
        db.contains_key(Dict::Credentials) ==> count_in(db) is Ok,
        db.contains_key(Dict::Credentials) && db[Dict::Credentials].dom().finite() ==> {
            let keys = db[Dict::Credentials];
            &&& keys.contains_key(key::CRED_RANDOM_SECRET@) ==> count_in(db)->Ok_0 + 1
                == keys.dom().len()
            &&& !keys.contains_key(key::CRED_RANDOM_SECRET@) ==> count_in(db)->Ok_0
                == keys.dom().len()
        },
{
    if db.contains_key(Dict::Credentials) {
        let keys = db[Dict::Credentials];
        if !keys.contains_key(key::CRED_RANDOM_SECRET@) {
            assert(keys.dom().remove(key::CRED_RANDOM_SECRET@) =~= keys.dom());
        }
    }
}

// ---------------- listing ----------------------

/// Whether a credential belongs to the relying party and, with the check, has no policy that hides
/// it from lists: none, or one that makes user verification optional.
pub open spec fn is_listed(
    c: CredentialView,
    rp_id: Seq<char>,
    check_cred_protect: bool,
) -> bool {
    &&& c.rp_id == rp_id
    &&& check_cred_protect ==> c.cred_protect_policy is None || c.cred_protect_policy == Some(
        CredentialProtectionPolicy::UserVerificationOptional,
    )
}

/// The keys of the credentials in a list.
proof fn lemma_selected_keys(
    keys: DictView,
    names: Seq<Seq<char>>,
    rp_id: Seq<char>,
    check_cred_protect: bool,
) -> (places: Seq<Seq<char>>)
    requires
        names.no_duplicates(),
    ensures
        ({
            let list = selected(credentials_under(keys, names), rp_id, check_cred_protect);
            &&& places.len() == list.len()
            &&& places.no_duplicates()
            &&& forall|i: int|
                0 <= i < places.len() ==> {
                    &&& names.contains(#[trigger] places[i])
                    &&& credential_under(keys, places[i]) == Some(list[i])
                    &&& is_listed(list[i], rp_id, check_cred_protect)
                }
            &&& forall|name: Seq<char>| #[trigger]
                names.contains(name) && credential_under(keys, name) is Some && is_listed(
                    credential_under(keys, name)->0,
                    rp_id,
                    check_cred_protect,
                ) ==> places.contains(name)
        }),
    decreases names.len(),
{
    if names.len() == 0 {
        Seq::empty()
    } else {
        let front = names.drop_last();
        let last = names.last();
        let found = credentials_under(keys, names);
        let before = credentials_under(keys, front);
        assert(names =~= front.push(last));
        assert(front.no_duplicates());
        assert(!front.contains(last)) by {
            if front.contains(last) {
                let i = choose|i: int| 0 <= i < front.len() && front[i] == last;
                assert(names[i] == names[names.len() - 1]);
            }
        }
        let earlier = lemma_selected_keys(keys, front, rp_id, check_cred_protect);
        assert forall|name: Seq<char>| #[trigger] names.contains(name) <==> front.contains(name)
            || name == last by {
            lemma_push_contains(front, last, name);
        }
        if credential_under(keys, last) is Some {
            assert(found.drop_last() =~= before);
            assert(found.last() == (last, credential_under(keys, last)->0));
        }
        if credential_under(keys, last) is Some && is_listed(
            credential_under(keys, last)->0,
            rp_id,
            check_cred_protect,
        ) {
            let places = earlier.push(last);
            assert forall|i: int, j: int|
                0 <= i < places.len() && 0 <= j < places.len() && i != j implies places[i]
                != places[j] by {
                if i == earlier.len() {
                    assert(front.contains(earlier[j]));
                } else if j == earlier.len() {
                    assert(front.contains(earlier[i]));
                }
            }
            assert forall|name: Seq<char>| #[trigger]
                names.contains(name) && credential_under(keys, name) is Some && is_listed(
                    credential_under(keys, name)->0,
                    rp_id,
                    check_cred_protect,
                ) implies places.contains(name) by {
                lemma_push_contains(earlier, last, name);
            }
            places
        } else {
            earlier
        }
    }
}

/// A list holds one credential for each key whose credential is asked for, and nothing else. With
/// the check these are the credentials of the relying party with no protection policy or with one
/// that makes user verification optional; no other field matters.
pub proof fn list_goes_by_rp_id_and_policy(
    list: Seq<CredentialView>,
    keys: DictView,
    rp_id: Seq<char>,
    check_cred_protect: bool,
) -> (places: Seq<Seq<char>>)
    requires
        lists_credentials(list, keys, rp_id, check_cred_protect),
    ensures
        places.len() == list.len(),
        forall|i: int, j: int|
            0 <= i < places.len() && 0 <= j < places.len() && places[i] == places[j] ==> i == j,
        forall|i: int|
            0 <= i < list.len() ==> {
                &&& lies_under(keys, places[i], #[trigger] list[i])
                &&& is_listed(list[i], rp_id, check_cred_protect)
            },
        forall|name: Seq<char>, c: CredentialView| #[trigger]
            lies_under(keys, name, c) && is_listed(c, rp_id, check_cred_protect) ==> exists|i: int|
                0 <= i < list.len() && places[i] == name && list[i] == c,
{
    let names = choose|names: Seq<Seq<char>>| #[trigger]
        lists(names, keys) && list == selected(
            credentials_under(keys, credential_names(names)),
            rp_id,
            check_cred_protect,
        );
    let all = credential_names(names);
    lemma_others(names, key::CRED_RANDOM_SECRET@);
    let places = lemma_selected_keys(keys, all, rp_id, check_cred_protect);
    assert forall|i: int| 0 <= i < list.len() implies {
        &&& lies_under(keys, places[i], #[trigger] list[i])
        &&& is_listed(list[i], rp_id, check_cred_protect)
    } by {
        assert(all.contains(places[i]));
    }
    assert forall|name: Seq<char>, c: CredentialView| #[trigger]
        lies_under(keys, name, c) && is_listed(c, rp_id, check_cred_protect) implies exists|i: int|
        0 <= i < list.len() && places[i] == name && list[i] == c by {
        assert(names.contains(name));
        assert(all.contains(name));
        assert(places.contains(name));
        let i = choose|i: int| 0 <= i < places.len() && places[i] == name;
        assert(credential_under(keys, places[i]) == Some(list[i]));
    }
    places
}

/// The check takes from a list exactly the credentials whose policy is neither absent nor makes
/// user verification optional.
pub proof fn check_takes_only_the_unlisted(
    with_check: Seq<CredentialView>,
    without_check: Seq<CredentialView>,
    keys: DictView,
    rp_id: Seq<char>,
    c: CredentialView,
)
    requires
        lists_credentials(with_check, keys, rp_id, true),
        lists_credentials(without_check, keys, rp_id, false),
    ensures
        with_check.contains(c) <==> without_check.contains(c) && (c.cred_protect_policy is None
            || c.cred_protect_policy == Some(CredentialProtectionPolicy::UserVerificationOptional)),
{
    let a = list_goes_by_rp_id_and_policy(with_check, keys, rp_id, true);
    let b = list_goes_by_rp_id_and_policy(without_check, keys, rp_id, false);
    if with_check.contains(c) {
        let i = choose|i: int| 0 <= i < with_check.len() && with_check[i] == c;
        assert(lies_under(keys, a[i], with_check[i]));
        let j = choose|j: int|
            0 <= j < without_check.len() && b[j] == a[i] && without_check[j] == c;
        assert(without_check[j] == c);
    }
    if without_check.contains(c) {
        let i = choose|i: int| 0 <= i < without_check.len() && without_check[i] == c;
        assert(lies_under(keys, b[i], without_check[i]));
        if is_listed(c, rp_id, true) {
            let j = choose|j: int| 0 <= j < with_check.len() && a[j] == b[i] && with_check[j] == c;
            assert(with_check[j] == c);
        }
    }
}

// ---------------- creation order ----------------------

/// Where there are credentials, the next creation order is one more than the greatest, or 0 once
/// the numbers are used up. Where there are none it is 0.
pub proof fn next_order_adds_one(keys: DictView, order: u64, m: u64)
    requires
        is_next_order(keys, order),
        keys.dom().finite(),
        forall|name: Seq<char>, c: CredentialView| #[trigger]
            lies_under(keys, name, c) ==> c.creation_order <= m,
        m == 0 || exists|name: Seq<char>, c: CredentialView| #[trigger]
            lies_under(keys, name, c) && c.creation_order == m,
    ensures
        (forall|name: Seq<char>| #[trigger]
            keys.contains_key(name) ==> name == key::CRED_RANDOM_SECRET@) ==> order == 0,
        (exists|name: Seq<char>| #[trigger]
            keys.contains_key(name) && name != key::CRED_RANDOM_SECRET@) ==> {
            &&& m < u64::MAX ==> order == m + 1
            &&& m == u64::MAX ==> order == 0
        },
{
    let others = keys.dom().remove(key::CRED_RANDOM_SECRET@);
    if forall|name: Seq<char>| #[trigger]
        keys.contains_key(name) ==> name == key::CRED_RANDOM_SECRET@ {
        assert(others =~= Set::empty());
    }
    if exists|name: Seq<char>| #[trigger]
        keys.contains_key(name) && name != key::CRED_RANDOM_SECRET@ {
        let name = choose|name: Seq<char>| #[trigger]
            keys.contains_key(name) && name != key::CRED_RANDOM_SECRET@;
        assert(others.contains(name));
        if others.len() == 0 {
            assert(others =~= Set::empty());
        }
        let last = choose|last: u64| #[trigger] is_latest(keys, last) && order == successor(last);
        assert(is_latest(keys, last));
        assert(last <= m) by {
            if last != 0 {
                let (n, c) = choose|n: Seq<char>, c: CredentialView| #[trigger]
                    is_stored(keys, n, c) && c.creation_order == last;
                lemma_lies_under(keys, n, c);
                assert(lies_under(keys, n, c));
            }
        }
        assert(m <= last) by {
            if m != 0 {
                let (n, c) = choose|n: Seq<char>, c: CredentialView| #[trigger]
                    lies_under(keys, n, c) && c.creation_order == m;
                lemma_lies_under(keys, n, c);
                assert(is_stored(keys, n, c));
            }
        }
    }
}

// ---------------- storing ----------------------

/// Whether two credentials belong to the same user at the same relying party.
pub open spec fn same_user(a: CredentialView, b: CredentialView) -> bool {
    a.rp_id == b.rp_id && a.user_handle == b.user_handle
}

/// Storing finds room for every credential as long as there are fewer than 150 keys of credentials,
/// whatever its fields hold.
pub proof fn there_is_room_below_the_limit(db: Contents, c: CredentialView)
    requires
        db.contains_key(Dict::Credentials),
        db[Dict::Credentials].dom().finite(),
        db[Dict::Credentials].dom().remove(key::CRED_RANDOM_SECRET@).len() < 150,
    ensures
        credential_stored(db, c).0 is Ok,
{
}

/// At 150 credentials there is room exactly for a credential whose key is there, or whose user has
/// one already. All others are refused, and a store without its dictionary is an internal error.
pub proof fn full_store_only_replaces(db: Contents, c: CredentialView)
    ensures
        !db.contains_key(Dict::Credentials) ==> credential_stored(db, c) == (
            Err::<(), _>(Ctap2StatusCode::CTAP2_ERR_VENDOR_INTERNAL_ERROR),
            db,
        ),
        db.contains_key(Dict::Credentials) && db[Dict::Credentials].dom().remove(
            key::CRED_RANDOM_SECRET@,
        ).len() >= 150 ==> {
            let keys = db[Dict::Credentials];
            &&& credential_stored(db, c).0 is Ok <==> {
                ||| keys.contains_key(short_id(c.credential_id))
                ||| exists|name: Seq<char>, other: CredentialView| #[trigger]
                    lies_under(keys, name, other) && same_user(c, other)
            }
            &&& credential_stored(db, c).0 is Err ==> credential_stored(db, c) == (
                Err::<(), _>(Ctap2StatusCode::CTAP2_ERR_KEY_STORE_FULL),
                db,
            )
        },
{
    if db.contains_key(Dict::Credentials) {
        let keys = db[Dict::Credentials];
        let new = pending(c);
        if exists|name: Seq<char>, other: CredentialView| #[trigger]
            lies_under(keys, name, other) && same_user(c, other) {
            let (name, other) = choose|name: Seq<char>, other: CredentialView| #[trigger]
                lies_under(keys, name, other) && same_user(c, other);
            assert(in_account(keys, new, name));
        }
        if exists|name: Seq<char>| in_account(keys, new, name) {
            let name = choose|name: Seq<char>| in_account(keys, new, name);
            assert(lies_under(keys, name, credential_under(keys, name)->0));
        }
    }
}

/// Storing puts the record of the credential under its key, takes away what else belongs to the
/// same user at the same relying party, and touches no other key and no other dictionary.
pub proof fn storing_writes_and_replaces(db: Contents, c: CredentialView, name: Seq<char>)
    requires
        credential_stored(db, c).0 is Ok,
    ensures
        ({
            let after = credential_stored(db, c).1;
            let before = db[Dict::Credentials];
            let keys = after[Dict::Credentials];
            let own = short_id(c.credential_id);
            &&& db.contains_key(Dict::Credentials)
            &&& after.contains_key(Dict::Credentials)
            &&& after.remove(Dict::Credentials) == db.remove(Dict::Credentials)
            &&& keys.contains_key(own)
            &&& keys[own] == credential_bytes(c)
            &&& name != own ==> {
                let replaced = exists|other: CredentialView| #[trigger]
                    lies_under(before, name, other) && same_user(c, other);
                &&& keys.contains_key(name) <==> before.contains_key(name) && !replaced
                &&& keys.contains_key(name) ==> keys[name] == before[name]
            }
        }),
{
    let after = credential_stored(db, c).1;
    let before = db[Dict::Credentials];
    let new = pending(c);
    assert(after.remove(Dict::Credentials) =~= db.remove(Dict::Credentials));
    lemma_short_id_is_not_secret(c.credential_id);
    if superseded(before, new).contains(name) {
        assert(lies_under(before, name, credential_under(before, name)->0));
    }
    if exists|other: CredentialView| #[trigger]
        lies_under(before, name, other) && same_user(c, other) {
        let other = choose|other: CredentialView| #[trigger]
            lies_under(before, name, other) && same_user(c, other);
        assert(in_account(before, new, name));
    }
}

} // verus!

//! What holds of the credentials as a whole.
use vstd::prelude::*;

verus! {

use crate::credentials::{
    credential_count, credential_in, is_latest, lemma_count, is_next_order, is_stored,
    lists_credentials, selected, selects, successor, MAX_SUPPORTED_RESIDENTIAL_KEYS,
};
use crate::data_formats::CredentialView;
use crate::init::{cleared, init_done, settled_from, Material};
use crate::key;
use crate::laws::{called, called_all, changed, Call, Change};
use crate::names::{lemma_others, lemma_push_contains};
use crate::pddb::{lists, Contents, DictView};
use crate::record_format::{credential_bytes, stored_credential};
use crate::request::Dict;
use crate::scan::{credential_names, credential_under, credentials_under, FoundView};
use crate::short_id::{lemma_short_id_is_not_secret, short_id};
use crate::status_code::Ctap2StatusCode;
use crate::store_credential::{
    credential_stored, in_account, no_room, pending, stored_keys, superseded,
};

// ---------------- finding ----------------------

/// A credential that is found is the one that was asked for: it is stored, it has the ID and
/// belongs to the relying party, and it may be used without user verification where that is
/// checked.
pub proof fn found_is_asked_for(
    db: Contents,
    rp_id: Seq<char>,
    credential_id: Seq<u8>,
    check_cred_protect: bool,
    credential: CredentialView,
)
    requires
        credential_in(db, rp_id, credential_id, check_cred_protect) == Ok::<_, Ctap2StatusCode>(
            Some(credential),
        ),
    ensures
        credential.credential_id == credential_id,
        credential.rp_id == rp_id,
        check_cred_protect ==> !credential.user_verification_required(),
        is_stored(db[Dict::Credentials], short_id(credential_id), credential),
{
    lemma_short_id_is_not_secret(credential_id);
}

/// The check only ever hides a credential: what is found with the check is found without it, and
/// what is found without it is found with it unless user verification is required.
pub proof fn check_only_hides(db: Contents, rp_id: Seq<char>, credential_id: Seq<u8>)
    ensures
        credential_in(db, rp_id, credential_id, true) == (match credential_in(
            db,
            rp_id,
            credential_id,
            false,
        ) {
            Ok(Some(credential)) => if credential.user_verification_required() {
                Ok(None)
            } else {
                Ok(Some(credential))
            },
            other => other,
        }),
{
}

// ---------------- filtering ----------------------

/// What a walk through some keys finds.
proof fn lemma_under_contains(
    keys: DictView,
    names: Seq<Seq<char>>,
    name: Seq<char>,
    credential: CredentialView,
)
    ensures
        credentials_under(keys, names).contains((name, credential)) <==> {
            &&& names.contains(name)
            &&& credential_under(keys, name) == Some(credential)
        },
    decreases names.len(),
{
    if names.len() > 0 {
        let front = names.drop_last();
        let last = names.last();
        let before = credentials_under(keys, front);
        lemma_under_contains(keys, front, name, credential);
        assert(names =~= front.push(last));
        lemma_push_contains(front, last, name);
        if credential_under(keys, last) is Some {
            let found = (last, credential_under(keys, last)->0);
            lemma_push_contains(before, found, (name, credential));
            assert(credentials_under(keys, names) == before.push(found));
        }
    }
}

/// What is selected of the credentials that were found.
proof fn lemma_selected_contains(
    found: Seq<FoundView>,
    rp_id: Seq<char>,
    check_cred_protect: bool,
    credential: CredentialView,
)
    ensures
        selected(found, rp_id, check_cred_protect).contains(credential) <==> {
            &&& selects(credential, rp_id, check_cred_protect)
            &&& exists|name: Seq<char>| #[trigger] found.contains((name, credential))
        },
    decreases found.len(),
{
    if found.len() > 0 {
        let front = found.drop_last();
        let last = found.last();
        let before = selected(front, rp_id, check_cred_protect);
        lemma_selected_contains(front, rp_id, check_cred_protect, credential);
        assert(found =~= front.push(last));
        lemma_push_contains(before, last.1, credential);
        if exists|name: Seq<char>| #[trigger] found.contains((name, credential)) {
            let name = choose|name: Seq<char>| #[trigger] found.contains((name, credential));
            lemma_push_contains(front, last, (name, credential));
        }
        if exists|name: Seq<char>| #[trigger] front.contains((name, credential)) {
            let name = choose|name: Seq<char>| #[trigger] front.contains((name, credential));
            lemma_push_contains(front, last, (name, credential));
            assert(found.contains((name, credential)));
        }
        if last.1 == credential {
            lemma_push_contains(front, last, (last.0, credential));
            assert(found.contains((last.0, credential)));
        }
    }
}

/// A filtered list holds exactly the stored credentials of the relying party, and with the check
/// only those that are discoverable.
pub proof fn filtered_is_asked_for(
    list: Seq<CredentialView>,
    keys: DictView,
    rp_id: Seq<char>,
    check_cred_protect: bool,
    credential: CredentialView,
)
    requires
        lists_credentials(list, keys, rp_id, check_cred_protect),
    ensures
        list.contains(credential) <==> {
            &&& credential.rp_id == rp_id
            &&& check_cred_protect ==> credential.discoverable()
            &&& exists|name: Seq<char>| is_stored(keys, name, credential)
        },
{
    let names = choose|names: Seq<Seq<char>>| #[trigger]
        lists(names, keys) && list == selected(
            credentials_under(keys, credential_names(names)),
            rp_id,
            check_cred_protect,
        );
    let all = credential_names(names);
    let found = credentials_under(keys, all);
    lemma_others(names, key::CRED_RANDOM_SECRET@);
    lemma_selected_contains(found, rp_id, check_cred_protect, credential);
    assert forall|name: Seq<char>| #[trigger] found.contains((name, credential)) <==> is_stored(
        keys,
        name,
        credential,
    ) by {
        lemma_under_contains(keys, all, name, credential);
        assert(names.contains(name) <==> keys.contains_key(name));
        assert(all.contains(name) <==> names.contains(name) && name != key::CRED_RANDOM_SECRET@);
    }
    if exists|name: Seq<char>| is_stored(keys, name, credential) {
        let name = choose|name: Seq<char>| is_stored(keys, name, credential);
        assert(found.contains((name, credential)));
    }
}

/// A credential that lies under one of the keys only is selected once at most.
proof fn lemma_selected_once(
    keys: DictView,
    names: Seq<Seq<char>>,
    rp_id: Seq<char>,
    check_cred_protect: bool,
    name: Seq<char>,
    credential: CredentialView,
)
    requires
        names.no_duplicates(),
        forall|n: Seq<char>| #[trigger]
            names.contains(n) && credential_under(keys, n) == Some(credential) ==> n == name,
    ensures
        selected(credentials_under(keys, names), rp_id, check_cred_protect).to_multiset().count(
            credential,
        ) <= 1,
    decreases names.len(),
{
    broadcast use vstd::seq_lib::group_to_multiset_ensures;

    let found = credentials_under(keys, names);
    if names.len() > 0 {
        let front = names.drop_last();
        let last = names.last();
        let before = credentials_under(keys, front);
        let chosen = selected(before, rp_id, check_cred_protect);
        assert(names =~= front.push(last));
        assert forall|n: Seq<char>| #[trigger] front.contains(n) implies names.contains(n) && n
            != last by {
            lemma_push_contains(front, last, n);
            let i = choose|i: int| 0 <= i < front.len() && front[i] == n;
            assert(names[i] != names[names.len() - 1]);
        }
        lemma_selected_once(keys, front, rp_id, check_cred_protect, name, credential);
        if credential_under(keys, last) is Some {
            assert(found.drop_last() =~= before);
            assert(found.last() == (last, credential_under(keys, last)->0));
            if credential_under(keys, last) == Some(credential) {
                assert(names.contains(last));
                lemma_selected_contains(before, rp_id, check_cred_protect, credential);
                assert forall|n: Seq<char>| !(#[trigger] before.contains((n, credential))) by {
                    lemma_under_contains(keys, front, n, credential);
                }
                assert(chosen.to_multiset().count(credential) == 0);
            }
        }
    } else {
        assert(!selected(found, rp_id, check_cred_protect).contains(credential));
    }
}

/// A credential that is asked for and lies under one key stands in a filtered list exactly once.
pub proof fn filtered_stands_once(
    list: Seq<CredentialView>,
    keys: DictView,
    rp_id: Seq<char>,
    check_cred_protect: bool,
    name: Seq<char>,
    credential: CredentialView,
)
    requires
        lists_credentials(list, keys, rp_id, check_cred_protect),
        is_stored(keys, name, credential),
        forall|n: Seq<char>| #[trigger] is_stored(keys, n, credential) ==> n == name,
        selects(credential, rp_id, check_cred_protect),
    ensures
        list.to_multiset().count(credential) == 1,
{
    broadcast use vstd::seq_lib::group_to_multiset_ensures;

    filtered_is_asked_for(list, keys, rp_id, check_cred_protect, credential);
    let names = choose|names: Seq<Seq<char>>| #[trigger]
        lists(names, keys) && list == selected(
            credentials_under(keys, credential_names(names)),
            rp_id,
            check_cred_protect,
        );
    let all = credential_names(names);
    lemma_others(names, key::CRED_RANDOM_SECRET@);
    assert forall|n: Seq<char>| #[trigger]
        all.contains(n) && credential_under(keys, n) == Some(credential) implies n == name by {
        assert(is_stored(keys, n, credential));
    }
    lemma_selected_once(keys, all, rp_id, check_cred_protect, name, credential);
}

/// No more is found than there are keys, and no more is selected than was found.
proof fn lemma_selected_length(
    keys: DictView,
    names: Seq<Seq<char>>,
    rp_id: Seq<char>,
    check_cred_protect: bool,
)
    ensures
        selected(credentials_under(keys, names), rp_id, check_cred_protect).len() <= names.len(),
    decreases names.len(),
{
    if names.len() > 0 {
        lemma_selected_length(keys, names.drop_last(), rp_id, check_cred_protect);
        let found = credentials_under(keys, names);
        if credential_under(keys, names.last()) is Some {
            assert(found.drop_last() =~= credentials_under(keys, names.drop_last()));
        }
    }
}

/// A filtered list is no longer than the number of credentials.
pub proof fn filtered_within_count(
    list: Seq<CredentialView>,
    keys: DictView,
    rp_id: Seq<char>,
    check_cred_protect: bool,
)
    requires
        lists_credentials(list, keys, rp_id, check_cred_protect),
    ensures
        list.len() <= credential_count(keys),
{
    let names = choose|names: Seq<Seq<char>>| #[trigger]
        lists(names, keys) && list == selected(
            credentials_under(keys, credential_names(names)),
            rp_id,
            check_cred_protect,
        );
    lemma_selected_length(keys, credential_names(names), rp_id, check_cred_protect);
    lemma_count(names, keys);
}

// ---------------- creation order ----------------------

/// The next creation order is later than that of every stored credential, as long as none of them
/// has reached the end of the numbers.
pub proof fn next_order_is_later(
    keys: DictView,
    order: u64,
    name: Seq<char>,
    credential: CredentialView,
)
    requires
        is_next_order(keys, order),
        keys.dom().finite(),
        forall|n: Seq<char>, c: CredentialView| #[trigger]
            is_stored(keys, n, c) ==> c.creation_order < u64::MAX,
        is_stored(keys, name, credential),
    ensures
        order > credential.creation_order,
{
    let others = keys.dom().remove(key::CRED_RANDOM_SECRET@);
    assert(others.contains(name));
    if others.len() == 0 {
        assert(others =~= Set::empty());
    }
    let last = choose|last: u64| #[trigger] is_latest(keys, last) && order == successor(last);
    assert(is_latest(keys, last));
}

// ---------------- storing ----------------------

/// Storing a credential keeps all credentials of other accounts, unless they share its key.
pub proof fn storing_keeps_others(
    db: Contents,
    credential: CredentialView,
    name: Seq<char>,
    other: CredentialView,
)
    requires
        db.contains_key(Dict::Credentials),
        is_stored(db[Dict::Credentials], name, other),
        !credential.same_account(other),
        name != short_id(credential.credential_id),
    ensures
        is_stored(credential_stored(db, credential).1[Dict::Credentials], name, other),
{
}

/// Storing a credential makes no other one appear.
pub proof fn storing_adds_no_other(
    db: Contents,
    credential: CredentialView,
    name: Seq<char>,
    other: CredentialView,
)
    requires
        db.contains_key(Dict::Credentials),
        is_stored(credential_stored(db, credential).1[Dict::Credentials], name, other),
        name != short_id(credential.credential_id),
    ensures
        is_stored(db[Dict::Credentials], name, other),
{
}

/// The store does not grow beyond its limit: storing a credential adds at most one, and none where
/// the store is full.
pub proof fn storing_stays_within_limit(db: Contents, credential: CredentialView)
    requires
        db.contains_key(Dict::Credentials),
        db[Dict::Credentials].dom().finite(),
    ensures
        ({
            let before = credential_count(db[Dict::Credentials]);
            let after = credential_count(credential_stored(db, credential).1[Dict::Credentials]);
            &&& after <= before + 1
            &&& before <= MAX_SUPPORTED_RESIDENTIAL_KEYS ==> after <= MAX_SUPPORTED_RESIDENTIAL_KEYS
        }),
{
    let keys = db[Dict::Credentials];
    let new = pending(credential);
    let secret = key::CRED_RANDOM_SECRET@;
    lemma_short_id_is_not_secret(credential.credential_id);
    if !no_room(keys, new) {
        let before = keys.dom().remove(secret);
        let after = stored_keys(keys, new).dom().remove(secret);
        let most = before.insert(new.name);
        assert(after.subset_of(most));
        vstd::set_lib::lemma_len_subset(after, most);
        if keys.contains_key(new.name) {
            assert(most =~= before);
        } else if exists|name: Seq<char>| in_account(keys, new, name) {
            let name = choose|name: Seq<char>| in_account(keys, new, name);
            assert(superseded(keys, new).contains(name));
            assert(before.contains(name));
            assert(after.subset_of(most.remove(name)));
            vstd::set_lib::lemma_len_subset(after, most.remove(name));
        }
    }
}

/// Where it neither reuses a key nor replaces another one, a stored credential is one more.
pub proof fn storing_adds_one(db: Contents, credential: CredentialView)
    requires
        db.contains_key(Dict::Credentials),
        db[Dict::Credentials].dom().finite(),
        credential_stored(db, credential).0 is Ok,
        !db[Dict::Credentials].contains_key(short_id(credential.credential_id)),
        forall|name: Seq<char>, other: CredentialView| #[trigger]
            is_stored(db[Dict::Credentials], name, other) ==> !credential.same_account(other),
    ensures
        credential_count(credential_stored(db, credential).1[Dict::Credentials])
            == credential_count(db[Dict::Credentials]) + 1,
{
    let keys = db[Dict::Credentials];
    let new = pending(credential);
    let secret = key::CRED_RANDOM_SECRET@;
    lemma_short_id_is_not_secret(credential.credential_id);
    assert forall|name: Seq<char>| !in_account(keys, new, name) by {
        if in_account(keys, new, name) {
            assert(is_stored(keys, name, credential_under(keys, name)->0));
        }
    }
    assert(stored_keys(keys, new).dom().remove(secret) =~= keys.dom().remove(secret).insert(
        new.name,
    ));
}

/// Replacing the credential of an account keeps the number of credentials, unless the key of the
/// new one is in use for something else.
pub proof fn replacing_keeps_count(
    db: Contents,
    credential: CredentialView,
    name: Seq<char>,
    other: CredentialView,
)
    requires
        db.contains_key(Dict::Credentials),
        db[Dict::Credentials].dom().finite(),
        one_per_account(db[Dict::Credentials]),
        is_stored(db[Dict::Credentials], name, other),
        credential.same_account(other),
        db[Dict::Credentials].contains_key(short_id(credential.credential_id)) ==> name == short_id(
            credential.credential_id,
        ),
    ensures
        credential_stored(db, credential).0 is Ok,
        credential_count(credential_stored(db, credential).1[Dict::Credentials])
            == credential_count(db[Dict::Credentials]),
{
    let keys = db[Dict::Credentials];
    let new = pending(credential);
    let secret = key::CRED_RANDOM_SECRET@;
    lemma_short_id_is_not_secret(credential.credential_id);
    assert(in_account(keys, new, name));
    assert forall|n: Seq<char>| in_account(keys, new, n) implies n == name by {
        assert(is_stored(keys, n, credential_under(keys, n)->0));
    }
    let before = keys.dom().remove(secret);
    let after = stored_keys(keys, new).dom().remove(secret);
    if name == new.name {
        assert(after =~= before);
    } else {
        assert(superseded(keys, new).contains(name));
        assert(after =~= before.insert(new.name).remove(name));
    }
}

/// A credential is refused exactly where there is no room for it, and then nothing changes.
pub proof fn refusal_changes_nothing(db: Contents, credential: CredentialView)
    requires
        db.contains_key(Dict::Credentials),
    ensures
        credential_stored(db, credential).0 is Err <==> no_room(
            db[Dict::Credentials],
            pending(credential),
        ),
        credential_stored(db, credential).0 is Err ==> credential_stored(db, credential) == (
            Err::<(), _>(Ctap2StatusCode::CTAP2_ERR_KEY_STORE_FULL),
            db,
        ),
{
}

/// Whether every account has at most one credential.
pub open spec fn one_per_account(keys: DictView) -> bool {
    forall|n1: Seq<char>, c1: CredentialView, n2: Seq<char>, c2: CredentialView|
        #![trigger is_stored(keys, n1, c1), is_stored(keys, n2, c2)]
        is_stored(keys, n1, c1) && is_stored(keys, n2, c2) && c1.same_account(c2) ==> n1 == n2
}

/// A stored credential whose record can be read back is found, replaces all others of its account,
/// and keeps every account at one credential.
pub proof fn lemma_stored(db: Contents, credential: CredentialView)
    requires
        credential_stored(db, credential).0 is Ok,
        stored_credential(credential_bytes(credential)) == Some(credential),
    ensures
        ({
            let after = credential_stored(db, credential).1;
            let keys = after[Dict::Credentials];
            &&& credential_in(after, credential.rp_id, credential.credential_id, false) == Ok::<
                _,
                Ctap2StatusCode,
            >(Some(credential))
            &&& is_stored(keys, short_id(credential.credential_id), credential)
            &&& forall|name: Seq<char>, other: CredentialView| #[trigger]
                is_stored(keys, name, other) && credential.same_account(other) ==> name == short_id(
                    credential.credential_id,
                ) && other == credential
            &&& one_per_account(db[Dict::Credentials]) ==> one_per_account(keys)
        }),
{
    let before = db[Dict::Credentials];
    let keys = credential_stored(db, credential).1[Dict::Credentials];
    let own = short_id(credential.credential_id);
    lemma_short_id_is_not_secret(credential.credential_id);
    assert(is_stored(keys, own, credential));
    assert forall|name: Seq<char>, other: CredentialView| #[trigger]
        is_stored(keys, name, other) && credential.same_account(other) implies name == own && other
        == credential by {
        if name != own {
            assert(in_account(before, pending(credential), name));
            assert(superseded(before, pending(credential)).contains(name));
        }
    }
    if one_per_account(before) {
        assert forall|n1: Seq<char>, c1: CredentialView, n2: Seq<char>, c2: CredentialView|
            #![trigger is_stored(keys, n1, c1), is_stored(keys, n2, c2)]
            is_stored(keys, n1, c1) && is_stored(keys, n2, c2) && c1.same_account(c2) implies n1
            == n2 by {
            if n1 != own && n2 != own {
                assert(is_stored(before, n1, c1));
                assert(is_stored(before, n2, c2));
            }
        }
    }
}

/// Whether the credentials are in order: every account has at most one, and there are no more of
/// them than the store has room for.
pub open spec fn in_order(db: Contents) -> bool {
    db.contains_key(Dict::Credentials) ==> {
        let keys = db[Dict::Credentials];
        &&& keys.dom().finite()
        &&& one_per_account(keys)
        &&& credential_count(keys) <= MAX_SUPPORTED_RESIDENTIAL_KEYS
    }
}

/// Whether two dictionaries hold the same, save for the CredRandom secrets.
spec fn same_credentials(a: DictView, b: DictView) -> bool {
    a.remove(key::CRED_RANDOM_SECRET@) == b.remove(key::CRED_RANDOM_SECRET@)
}

/// The order of the credentials does not rest on the CredRandom secrets.
proof fn lemma_same_credentials(a: DictView, b: DictView)
    requires
        same_credentials(a, b),
        a.dom().finite(),
        one_per_account(a),
    ensures
        b.dom().finite(),
        one_per_account(b),
        credential_count(b) == credential_count(a),
{
    let secret = key::CRED_RANDOM_SECRET@;
    assert(a.dom().remove(secret) =~= a.remove(secret).dom());
    assert(b.dom().remove(secret) =~= b.remove(secret).dom());
    if b.contains_key(secret) {
        assert(b.dom() =~= b.dom().remove(secret).insert(secret));
    } else {
        assert(b.dom() =~= b.dom().remove(secret));
    }
    assert forall|name: Seq<char>, credential: CredentialView| #[trigger]
        is_stored(b, name, credential) implies is_stored(a, name, credential) by {
        assert(b.remove(secret).contains_key(name) && b.remove(secret)[name] == b[name]);
        assert(a.remove(secret).contains_key(name) && a.remove(secret)[name] == a[name]);
    }
}

/// An initialization adds no credential.
proof fn lemma_init_in_order(db: Contents, material: Material)
    requires
        in_order(db),
    ensures
        in_order(init_done(db, material).1),
{
    reveal_with_fuel(settled_from, 3);
    let after = init_done(db, material).1;
    let secret = key::CRED_RANDOM_SECRET@;
    if after.contains_key(Dict::Credentials) {
        let keys = after[Dict::Credentials];
        if db.contains_key(Dict::Credentials) {
            assert(keys.remove(secret) =~= db[Dict::Credentials].remove(secret));
            lemma_same_credentials(db[Dict::Credentials], keys);
        } else {
            let none = DictView::empty();
            assert(none.dom().remove(secret) =~= Set::empty());
            assert(keys.remove(secret) =~= none.remove(secret));
            lemma_same_credentials(none, keys);
        }
    }
}

/// Whether the record of a credential that a call stores reads back. Storing a credential shows
/// this of every credential.
pub open spec fn record_reads_back(call: Call) -> bool {
    match call {
        Call::Change(Change::StoreCredential { credential }) => stored_credential(
            credential_bytes(credential),
        ) == Some(credential),
        _ => true,
    }
}

/// Any call keeps the credentials in order.
pub proof fn calls_keep_order(db: Contents, call: Call)
    requires
        in_order(db),
        record_reads_back(call),
    ensures
        in_order(called(db, call)),
{
    match call {
        Call::Reset { material } => {
            lemma_init_in_order(cleared(db), material);
        },
        Call::Change(Change::Init { material }) => {
            lemma_init_in_order(db, material);
        },
        Call::Change(Change::StoreCredential { credential }) => {
            if credential_stored(db, credential).0 is Ok {
                let keys = db[Dict::Credentials];
                let new = pending(credential);
                lemma_stored(db, credential);
                storing_stays_within_limit(db, credential);
                assert(stored_keys(keys, new).dom().subset_of(keys.dom().insert(new.name)));
                vstd::set_lib::lemma_set_subset_finite(
                    keys.dom().insert(new.name),
                    stored_keys(keys, new).dom(),
                );
            }
        },
        Call::Change(change) => {
            lemma_setting_spares_credentials(db, change);
        },
    }
}

/// A change of a setting leaves the credentials alone.
proof fn lemma_setting_spares_credentials(db: Contents, change: Change)
    requires
        !(change is Init),
        !(change is StoreCredential),
    ensures
        changed(db, change).contains_key(Dict::Credentials) == db.contains_key(Dict::Credentials),
        changed(db, change)[Dict::Credentials] == db[Dict::Credentials],
{
}

/// Whatever is done to a fresh store, every account has at most one credential, and there are no
/// more of them than the store has room for.
pub proof fn reached_stores_are_in_order(material: Material, calls: Seq<Call>)
    requires
        forall|i: int| 0 <= i < calls.len() ==> record_reads_back(#[trigger] calls[i]),
    ensures
        in_order(called_all(init_done(Contents::empty(), material).1, calls)),
    decreases calls.len(),
{
    let fresh = init_done(Contents::empty(), material).1;
    if calls.len() == 0 {
        lemma_init_in_order(Contents::empty(), material);
    } else {
        let before = calls.drop_last();
        assert(forall|i: int| 0 <= i < before.len() ==> before[i] == calls[i]);
        assert(record_reads_back(calls[calls.len() - 1]));
        reached_stores_are_in_order(material, before);
        calls_keep_order(called_all(fresh, before), calls.last());
    }
}

} // verus!

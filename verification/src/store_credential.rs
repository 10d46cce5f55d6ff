//! Storing a credential.
use vstd::prelude::*;
use vstd::slice::slice_to_vec;
use crate::bytes::bytes_equal;
use crate::credentials::{CRED_INITAL_SIZE, MAX_SUPPORTED_RESIDENTIAL_KEYS};
use crate::data_formats::PublicKeyCredentialSource;
use crate::names::{contains_name, without_name};
use crate::record_format::serialize_credential;
use crate::request::{Dict, Operation, Reply, Request, Step};
use crate::scan::{Found, Scan, ScanStep};
use crate::short_id::cid_to_str;
use crate::status_code::Ctap2StatusCode;
use crate::values::ReplaceValue;

verus! {

use crate::credentials::{credential_count, lemma_count};
use crate::data_formats::CredentialView;
use crate::key;
use crate::names::{lemma_others, lemma_push_contains, others, texts};
use crate::pddb::{answers, lists, Contents, DictView};
use crate::record_format::{credential_bytes, stored_credential};
use crate::request::{ReplyView, RequestView};
use crate::scan::{
    credential_names, credential_under, credentials_under, found_view, lemma_scan, scan_left,
    scan_progress, scan_request, scan_resume, FoundView, ScanStepView, ScanView,
};
use crate::short_id::{lemma_short_id_is_not_secret, short_id};
use crate::values::{
    lemma_replace_step, replace_left, replace_progress, replace_request, replace_resume,
    ReplaceView, TargetView,
};

/// A credential on its way into the database.
#[derive(Debug, PartialEq, Eq)]
pub struct Pending {
    /// The name of its key.
    name: String,
    /// Its record.
    data: Vec<u8>,
    /// The relying party and the user that it belongs to.
    rp_id: String,
    user_handle: Vec<u8>,
}

/// What a credential on its way into the database says.
pub struct PendingView {
    pub name: Seq<char>,
    pub data: Seq<u8>,
    pub rp_id: Seq<char>,
    pub user_handle: Seq<u8>,
}

impl View for Pending {
    type V = PendingView;

    closed spec fn view(&self) -> PendingView {
        PendingView {
            name: self.name@,
            data: self.data@,
            rp_id: self.rp_id@,
            user_handle: self.user_handle@,
        }
    }
}

/// A credential that is about to be stored.
pub open spec fn pending(credential: CredentialView) -> PendingView {
    PendingView {
        name: short_id(credential.credential_id),
        data: credential_bytes(credential),
        rp_id: credential.rp_id,
        user_handle: credential.user_handle,
    }
}

/// Stores or updates a credential. The credentials that are there are looked through first. The
/// new one is written before those that it replaces are removed.
#[derive(Debug, PartialEq, Eq)]
pub enum StoreCredential {
    /// The credentials are being looked through.
    Scanning { scan: Scan, pending: Pending },
    /// The new credential is being written, over what is under its key.
    Replacing { replace: ReplaceValue, superseded: Vec<String> },
    /// The credential under `current`, which was replaced, is being removed.
    Removing { current: String, rest: Vec<String> },
}

/// How far the storing has come.
pub enum StoreView {
    Scanning { scan: ScanView, pending: PendingView },
    Replacing { replace: ReplaceView, superseded: Seq<Seq<char>> },
    Removing { current: Seq<char>, rest: Seq<Seq<char>> },
}

impl View for StoreCredential {
    type V = StoreView;

    open spec fn view(&self) -> StoreView {
        match *self {
            StoreCredential::Scanning { scan, pending } => StoreView::Scanning {
                scan: scan@,
                pending: pending@,
            },
            StoreCredential::Replacing { replace, superseded } => StoreView::Replacing {
                replace: replace@,
                superseded: texts(superseded@),
            },
            StoreCredential::Removing { current, rest } => StoreView::Removing {
                current: current@,
                rest: texts(rest@),
            },
        }
    }
}

/// Whether a credential belongs to the same user at the same relying party.
pub open spec fn same_account(pending: PendingView, credential: CredentialView) -> bool {
    credential.rp_id == pending.rp_id && credential.user_handle == pending.user_handle
}

/// The keys of the credentials of the same account.
pub open spec fn account_names(found: Seq<FoundView>, pending: PendingView) -> Seq<Seq<char>>
    decreases found.len(),
{
    if found.len() == 0 {
        Seq::empty()
    } else {
        let before = account_names(found.drop_last(), pending);
        if same_account(pending, found.last().1) {
            before.push(found.last().0)
        } else {
            before
        }
    }
}

/// What is asked next.
pub open spec fn store_request(store: StoreView) -> RequestView {
    match store {
        StoreView::Scanning { scan, .. } => scan_request(scan),
        StoreView::Replacing { replace, .. } => replace_request(replace),
        StoreView::Removing { current, .. } => RequestView::DeleteKey {
            dict: Dict::Credentials,
            key: current,
        },
    }
}

/// What is written for a credential, and where.
pub open spec fn place(pending: PendingView) -> TargetView {
    TargetView {
        dict: Dict::Credentials,
        key: pending.name,
        hint: CRED_INITAL_SIZE,
        data: pending.data,
    }
}

/// What is done once all credentials are known: `names` are their keys, and `found` are those that
/// could be read. A credential that neither reuses a key nor replaces another one needs room.
pub open spec fn store_plan(
    pending: PendingView,
    names: Seq<Seq<char>>,
    found: Seq<FoundView>,
) -> Step<StoreView, Result<(), Ctap2StatusCode>> {
    let replaced = account_names(found, pending);
    let superseded = others(replaced, pending.name);
    if !names.contains(pending.name) && replaced.len() == 0 && names.len()
        >= MAX_SUPPORTED_RESIDENTIAL_KEYS {
        Step::Return(Err(Ctap2StatusCode::CTAP2_ERR_KEY_STORE_FULL))
    } else {
        let replace = ReplaceView::Checking { target: place(pending) };
        Step::Ask(StoreView::Replacing { replace, superseded })
    }
}

/// Turns to the next credential that was replaced, if there is one.
pub open spec fn store_proceed(names: Seq<Seq<char>>) -> Step<
    StoreView,
    Result<(), Ctap2StatusCode>,
> {
    if names.len() == 0 {
        Step::Return(Ok(()))
    } else {
        Step::Ask(StoreView::Removing { current: names.first(), rest: names.drop_first() })
    }
}

/// A reply as the walk through the credentials takes it. A record that cannot be read is passed
/// over, as one that cannot be opened.
pub open spec fn walk_reply(scan: ScanView, reply: ReplyView) -> ReplyView {
    if scan is Reading && reply is Failed {
        ReplyView::Refused
    } else {
        reply
    }
}

/// What follows from a reply.
pub open spec fn store_resume(store: StoreView, reply: ReplyView) -> Step<
    StoreView,
    Result<(), Ctap2StatusCode>,
> {
    let failure = Step::Return(Err(Ctap2StatusCode::CTAP2_ERR_VENDOR_INTERNAL_ERROR));
    match store {
        StoreView::Scanning { scan, pending } => match scan_resume(scan, walk_reply(scan, reply)) {
            ScanStepView::Ask(scan) => Step::Ask(StoreView::Scanning { scan, pending }),
            ScanStepView::Broken => failure,
            ScanStepView::Complete { names, found } => store_plan(pending, names, found),
        },
        StoreView::Replacing { replace, superseded } => match replace_resume(replace, reply) {
            Step::Ask(replace) => Step::Ask(StoreView::Replacing { replace, superseded }),
            Step::Return(Ok(_)) => store_proceed(superseded),
            Step::Return(Err(code)) => Step::Return(Err(code)),
        },
        StoreView::Removing { rest, .. } => match reply {
            ReplyView::Deleted => store_proceed(rest),
            ReplyView::NotFound => store_proceed(rest),
            _ => failure,
        },
    }
}

/// What a step says.
pub open spec fn store_step(step: Step<StoreCredential, Result<(), Ctap2StatusCode>>) -> Step<
    StoreView,
    Result<(), Ctap2StatusCode>,
> {
    match step {
        Step::Ask(store) => Step::Ask(store@),
        Step::Return(result) => Step::Return(result),
    }
}

/// The keys of the credentials of the same account.
fn find_account(found: &Vec<Found>, pending: &Pending) -> (names: Vec<String>)
    ensures
        texts(names@) == account_names(found_view(found@), pending@),
{
    let ghost all = found_view(found@);
    let mut names: Vec<String> = Vec::new();
    let mut i: usize = 0;
    assert(all.take(0) =~= Seq::<FoundView>::empty());
    assert(texts(names@) =~= Seq::<Seq<char>>::empty());
    while i < found.len()
        invariant
            i <= found@.len(),
            all == found_view(found@),
            texts(names@) == account_names(all.take(i as int), pending@),
        decreases found@.len() - i,
    {
        let ghost before = texts(names@);
        proof {
            assert(all.take(i + 1).drop_last() =~= all.take(i as int));
            assert(all.take(i + 1).last() == all[i as int]);
            assert(all[i as int] == (found@[i as int].name@, found@[i as int].credential@));
        }
        let credential = &found[i].credential;
        if credential.rp_id == pending.rp_id && bytes_equal(
            credential.user_handle.as_slice(),
            pending.user_handle.as_slice(),
        ) {
            names.push(found[i].name.clone());
            assert(texts(names@) =~= before.push(found@[i as int].name@));
        }
        i = i + 1;
    }
    assert(all.take(i as int) =~= all);
    names
}

/// Turns to the next credential that was replaced, if there is one.
fn proceed(names: Vec<String>) -> (step: Step<StoreCredential, Result<(), Ctap2StatusCode>>)
    ensures
        store_step(step) == store_proceed(texts(names@)),
{
    if names.len() == 0 {
        Step::Return(Ok(()))
    } else {
        let mut rest = names;
        let current = rest.remove(0);
        assert(texts(rest@) =~= texts(names@).drop_first());
        Step::Ask(StoreCredential::Removing { current, rest })
    }
}

/// A reply as the walk through the credentials takes it.
fn taken(scan: &Scan, reply: Reply) -> (taken: Reply)
    ensures
        taken@ == walk_reply(scan@, reply@),
{
    match (scan, reply) {
        (Scan::Reading { .. }, Reply::Failed) => Reply::Refused,
        (_, reply) => reply,
    }
}

/// What is done once all credentials are known.
fn plan(pending: Pending, names: Vec<String>, found: Vec<Found>) -> (step: Step<
    StoreCredential,
    Result<(), Ctap2StatusCode>,
>)
    ensures
        store_step(step) == store_plan(pending@, texts(names@), found_view(found@)),
{
    let replaced = find_account(&found, &pending);
    let none_replaced = replaced.len() == 0;
    assert(texts(replaced@).len() == replaced@.len());
    assert(texts(names@).len() == names@.len());
    let superseded = without_name(replaced, &pending.name);
    if !contains_name(&names, &pending.name) && none_replaced && names.len()
        >= MAX_SUPPORTED_RESIDENTIAL_KEYS {
        Step::Return(Err(Ctap2StatusCode::CTAP2_ERR_KEY_STORE_FULL))
    } else {
        let replace = ReplaceValue::new(
            Dict::Credentials,
            pending.name.as_str(),
            CRED_INITAL_SIZE,
            pending.data,
        );
        Step::Ask(StoreCredential::Replacing { replace, superseded })
    }
}

impl StoreCredential {
    /// Starts storing a credential.
    pub fn new(credential: PublicKeyCredentialSource) -> (store: Result<
        StoreCredential,
        Ctap2StatusCode,
    >)
        ensures
            store is Ok,
            store->Ok_0@ == (StoreView::Scanning {
                scan: ScanView::Listing,
                pending: pending(credential@),
            }),
            stored_credential(pending(credential@).data) == Some(credential@),
    {
        let name = cid_to_str(credential.credential_id.as_slice());
        let rp_id = credential.rp_id.clone();
        let user_handle = slice_to_vec(credential.user_handle.as_slice());
        match serialize_credential(credential) {
            Ok(data) => Ok(
                StoreCredential::Scanning {
                    scan: Scan::Listing,
                    pending: Pending { name, data, rp_id, user_handle },
                },
            ),
            Err(code) => Err(code),
        }
    }
}

impl Operation for StoreCredential {
    type Output = Result<(), Ctap2StatusCode>;

    fn request(&self) -> (request: Request)
        ensures
            request@ == store_request(self@),
    {
        match self {
            StoreCredential::Scanning { scan, .. } => scan.request(),
            StoreCredential::Replacing { replace, .. } => replace.request(),
            StoreCredential::Removing { current, .. } => Request::DeleteKey {
                dict: Dict::Credentials,
                key: current.clone(),
            },
        }
    }

    fn resume(self, reply: Reply) -> (step: Step<StoreCredential, Result<(), Ctap2StatusCode>>)
        ensures
            store_step(step) == store_resume(self@, reply@),
    {
        match self {
            StoreCredential::Scanning { scan, pending } => {
                let reply = taken(&scan, reply);
                match scan.resume(reply) {
                    ScanStep::Ask(scan) => Step::Ask(StoreCredential::Scanning { scan, pending }),
                    ScanStep::Broken => Step::Return(
                        Err(Ctap2StatusCode::CTAP2_ERR_VENDOR_INTERNAL_ERROR),
                    ),
                    ScanStep::Complete { names, found } => plan(pending, names, found),
                }
            },
            StoreCredential::Replacing { replace, superseded } => match replace.resume(reply) {
                Step::Ask(replace) => Step::Ask(StoreCredential::Replacing { replace, superseded }),
                Step::Return(Ok(_)) => proceed(superseded),
                Step::Return(Err(code)) => Step::Return(Err(code)),
            },
            StoreCredential::Removing { current: _, rest } => match reply {
                Reply::Deleted | Reply::NotFound => proceed(rest),
                _ => Step::Return(Err(Ctap2StatusCode::CTAP2_ERR_VENDOR_INTERNAL_ERROR)),
            },
        }
    }
}

// ---------------- the effect on the database ----------------------

/// Whether a key holds a credential of the same account.
pub open spec fn in_account(keys: DictView, pending: PendingView, name: Seq<char>) -> bool {
    &&& name != key::CRED_RANDOM_SECRET@
    &&& credential_under(keys, name) is Some
    &&& same_account(pending, credential_under(keys, name)->0)
}

/// The keys whose credentials a new one replaces, besides its own key.
pub open spec fn superseded(keys: DictView, pending: PendingView) -> Set<Seq<char>> {
    Set::new(|name: Seq<char>| name != pending.name && in_account(keys, pending, name))
}

/// Whether there is no room for a credential: it neither reuses a key nor replaces another one, and
/// the store is full.
pub open spec fn no_room(keys: DictView, pending: PendingView) -> bool {
    &&& !keys.contains_key(pending.name)
    &&& forall|name: Seq<char>| !in_account(keys, pending, name)
    &&& credential_count(keys) >= MAX_SUPPORTED_RESIDENTIAL_KEYS
}

/// The dictionary of credentials once a new one is stored.
pub open spec fn stored_keys(keys: DictView, pending: PendingView) -> DictView {
    keys.insert(pending.name, pending.data).remove_keys(superseded(keys, pending))
}

/// The result of storing a credential, and what the database holds then. The dictionary of
/// credentials has to be there.
pub open spec fn credential_stored(db: Contents, credential: CredentialView) -> (
    Result<(), Ctap2StatusCode>,
    Contents,
) {
    let new = pending(credential);
    if !db.contains_key(Dict::Credentials) {
        (Err(Ctap2StatusCode::CTAP2_ERR_VENDOR_INTERNAL_ERROR), db)
    } else if no_room(db[Dict::Credentials], new) {
        (Err(Ctap2StatusCode::CTAP2_ERR_KEY_STORE_FULL), db)
    } else {
        (Ok(()), db.insert(Dict::Credentials, stored_keys(db[Dict::Credentials], new)))
    }
}

/// The credentials of the account among those under some keys.
proof fn lemma_account_names(keys: DictView, names: Seq<Seq<char>>, pending: PendingView)
    ensures
        forall|name: Seq<char>| #[trigger]
            account_names(credentials_under(keys, names), pending).contains(name) <==> {
                &&& names.contains(name)
                &&& credential_under(keys, name) is Some
                &&& same_account(pending, credential_under(keys, name)->0)
            },
    decreases names.len(),
{
    let found = credentials_under(keys, names);
    let result = account_names(found, pending);
    if names.len() > 0 {
        let front = names.drop_last();
        let last = names.last();
        let before = credentials_under(keys, front);
        lemma_account_names(keys, front, pending);
        assert(names =~= front.push(last));
        if credential_under(keys, last) is Some {
            assert(found.drop_last() =~= before);
            assert(found.last() == (last, credential_under(keys, last)->0));
        }
        assert forall|name: Seq<char>| #[trigger] result.contains(name) <==> {
            &&& names.contains(name)
            &&& credential_under(keys, name) is Some
            &&& same_account(pending, credential_under(keys, name)->0)
        } by {
            lemma_push_contains(front, last, name);
            lemma_push_contains(account_names(before, pending), last, name);
        }
    }
}

/// Once all credentials are known, it is clear whether there is room, and which are replaced.
pub proof fn lemma_plan(names: Seq<Seq<char>>, keys: DictView, pending: PendingView)
    requires
        lists(names, keys),
        pending.name != key::CRED_RANDOM_SECRET@,
    ensures
        match store_plan(
            pending,
            credential_names(names),
            credentials_under(keys, credential_names(names)),
        ) {
            Step::Ask(StoreView::Replacing { replace, superseded: s }) => {
                &&& replace == (ReplaceView::Checking { target: place(pending) })
                &&& s.to_set() == superseded(keys, pending)
                &&& !no_room(keys, pending)
            },
            Step::Ask(_) => false,
            Step::Return(result) => {
                &&& result == Err::<(), _>(Ctap2StatusCode::CTAP2_ERR_KEY_STORE_FULL)
                &&& no_room(keys, pending)
            },
        },
{
    let all = credential_names(names);
    let found = credentials_under(keys, all);
    let replaced = account_names(found, pending);
    lemma_others(names, key::CRED_RANDOM_SECRET@);
    lemma_account_names(keys, all, pending);
    lemma_others(replaced, pending.name);
    lemma_count(names, keys);
    assert(all.contains(pending.name) <==> keys.contains_key(pending.name));
    assert forall|name: Seq<char>| #[trigger] replaced.contains(name) <==> in_account(
        keys,
        pending,
        name,
    ) by {
        if in_account(keys, pending, name) {
            assert(names.contains(name));
            assert(all.contains(name));
        }
    }
    assert(others(replaced, pending.name).to_set() =~= superseded(keys, pending));
    if replaced.len() > 0 {
        assert(replaced.contains(replaced[0]));
    } else {
        assert forall|name: Seq<char>| !in_account(keys, pending, name) by {
            assert(!replaced.contains(name));
        }
    }
}

/// Whether the storing of a credential in `db0` that holds `db` now goes on with `store`. `names`
/// is the listing that was walked through.
pub closed spec fn store_progress(
    db0: Contents,
    names: Seq<Seq<char>>,
    credential: CredentialView,
    db: Contents,
    store: StoreView,
) -> bool {
    let new = pending(credential);
    let end = stored_keys(db0[Dict::Credentials], new);
    let keys = db[Dict::Credentials];
    match store {
        StoreView::Scanning { scan, pending: p } => {
            &&& p == new
            &&& db == db0
            &&& scan is Reading ==> db0.contains_key(Dict::Credentials)
            &&& scan_progress(keys, names, scan)
        },
        StoreView::Replacing { replace, superseded: s } => {
            &&& credential_stored(db0, credential).0 is Ok
            &&& replace_progress(db0, db, replace, place(new))
            &&& s.to_set() == superseded(db0[Dict::Credentials], new)
        },
        StoreView::Removing { current, rest } => {
            &&& credential_stored(db0, credential).0 is Ok
            &&& db == db0.insert(Dict::Credentials, keys)
            &&& keys.remove_keys(rest.to_set().insert(current)) == end
        },
    }
}

/// How many phases are still to come.
pub open spec fn store_stage(store: StoreView) -> nat {
    match store {
        StoreView::Scanning { scan: ScanView::Listing, .. } => 3,
        StoreView::Scanning { scan: ScanView::Reading { .. }, .. } => 2,
        StoreView::Replacing { .. } => 1,
        StoreView::Removing { .. } => 0,
    }
}

/// How many requests of this phase are still to come after this one.
pub open spec fn store_left(store: StoreView) -> nat {
    match store {
        StoreView::Scanning { scan, .. } => scan_left(scan),
        StoreView::Replacing { replace, .. } => replace_left(replace),
        StoreView::Removing { rest, .. } => rest.len(),
    }
}

/// Storing starts with a walk through the credentials.
pub proof fn lemma_store_start(db: Contents, names: Seq<Seq<char>>, credential: CredentialView)
    ensures
        store_progress(
            db,
            names,
            credential,
            db,
            StoreView::Scanning { scan: ScanView::Listing, pending: pending(credential) },
        ),
{
}

/// Going on with the next superseded key removes it.
proof fn lemma_store_proceed(
    db0: Contents,
    names: Seq<Seq<char>>,
    credential: CredentialView,
    db: Contents,
    left: Seq<Seq<char>>,
)
    requires
        credential_stored(db0, credential).0 is Ok,
        db == db0.insert(Dict::Credentials, db[Dict::Credentials]),
        db[Dict::Credentials].remove_keys(left.to_set()) == stored_keys(
            db0[Dict::Credentials],
            pending(credential),
        ),
    ensures
        match store_proceed(left) {
            Step::Ask(next) => {
                &&& store_progress(db0, names, credential, db, next)
                &&& next is Removing
                &&& store_left(next) + 1 == left.len()
            },
            Step::Return(result) => (result, db) == credential_stored(db0, credential),
        },
{
    let keys = db[Dict::Credentials];
    if left.len() == 0 {
        assert(keys.remove_keys(left.to_set()) =~= keys);
    } else {
        let rest = left.drop_first();
        assert forall|name: Seq<char>| left.contains(name) <==> rest.contains(name) || name
            == left.first() by {
            if left.contains(name) {
                let i = choose|i: int| 0 <= i < left.len() && left[i] == name;
                if i > 0 {
                    assert(rest[i - 1] == name);
                }
            }
            if rest.contains(name) {
                let i = choose|i: int| 0 <= i < rest.len() && rest[i] == name;
                assert(left[i + 1] == name);
            }
            assert(left[0] == left.first());
        }
        assert(rest.to_set().insert(left.first()) =~= left.to_set());
    }
}

/// A request of the storing brings the end nearer.
pub proof fn lemma_store_step(
    db0: Contents,
    names: Seq<Seq<char>>,
    credential: CredentialView,
    db: Contents,
    store: StoreView,
    reply: ReplyView,
    after: Contents,
) -> (listed: Seq<Seq<char>>)
    requires
        store_progress(db0, names, credential, db, store),
        answers(db, store_request(store), reply, after),
    ensures
        match store_resume(store, reply) {
            Step::Ask(next) => {
                &&& store_progress(db0, listed, credential, after, next)
                &&& store_stage(next) < store_stage(store) || store_stage(next) == store_stage(
                    store,
                ) && store_left(next) < store_left(store)
            },
            Step::Return(result) => (result, after) == credential_stored(db0, credential),
        },
{
    let new = pending(credential);
    let keys = db[Dict::Credentials];
    match store {
        StoreView::Scanning { scan, pending: p } => {
            if db0.contains_key(Dict::Credentials) {
                let listed = lemma_scan(db, names, scan, reply);
                if scan_resume(scan, reply) is Complete {
                    lemma_short_id_is_not_secret(credential.credential_id);
                    lemma_plan(listed, keys, new);
                    assert(db0.insert(Dict::Credentials, keys) =~= db0);
                }
                listed
            } else {
                names
            }
        },
        StoreView::Replacing { replace, superseded: s } => {
            lemma_replace_step(db0, db, replace, place(new), reply, after);
            if replace_resume(replace, reply) is Return {
                assert(after == db0.insert(Dict::Credentials, after[Dict::Credentials]));
                lemma_store_proceed(db0, names, credential, after, s);
            }
            names
        },
        StoreView::Removing { current, rest } => {
            let now = after[Dict::Credentials];
            assert(now =~= keys.remove(current));
            assert(after =~= db0.insert(Dict::Credentials, now));
            assert(now.remove_keys(rest.to_set()) =~= keys.remove_keys(
                rest.to_set().insert(current),
            ));
            lemma_store_proceed(db0, names, credential, after, rest);
            names
        },
    }
}

} // verus!

//! Finding and listing credentials.
use vstd::prelude::*;
use crate::bytes::bytes_equal;
use crate::data_formats::PublicKeyCredentialSource;
use crate::record_format::deserialize_credential;
use crate::request::{Dict, Operation, Query, Reply, Request, Step};
use crate::scan::{
    retain_credential_names, Found, Scan, ScanStep, CREDENTIAL_ID_SIZE,
};
use crate::short_id::cid_to_str;
use crate::status_code::Ctap2StatusCode;

verus! {

use crate::data_formats::CredentialView;
use crate::key;
use crate::names::{lemma_others, lemma_push_contains, texts};
use crate::pddb::{lists, value, Contents, DictView};
use crate::record_format::stored_credential;
use crate::request::{ReplyView, RequestView};
use crate::scan::{
    credential_names, credential_under, credentials_under, found_view, read_credential,
    scan_request, scan_resume, FoundView, ScanStepView, ScanView,
};
use crate::short_id::short_id;

/// Size hint for storing a credential record. It can grow larger than this, because things like
/// icons and free-form strings are supported for storing credentials. A typical record has 300 to
/// 400 bytes, and a larger hint would waste space.
pub const CRED_INITAL_SIZE: usize = 512;

/// The number of credentials that the store has room for.
pub const MAX_SUPPORTED_RESIDENTIAL_KEYS: usize = 150;

// ---------------- finding one credential ----------------------

/// Looks up the credential of a relying party by its ID.
#[derive(Debug, PartialEq, Eq)]
pub struct FindCredential {
    pub rp_id: String,
    pub credential_id: Vec<u8>,
    pub check_cred_protect: bool,
}

/// What a result of a lookup says.
pub open spec fn found_result(
    result: Result<Option<PublicKeyCredentialSource>, Ctap2StatusCode>,
) -> Result<Option<CredentialView>, Ctap2StatusCode> {
    match result {
        Ok(Some(credential)) => Ok(Some(credential@)),
        Ok(None) => Ok(None),
        Err(code) => Err(code),
    }
}

/// What a lookup makes of the credential that it came upon: the credential itself, unless it is
/// another one, or is checked and needs the user to be verified.
pub open spec fn matched_credential(
    credential: CredentialView,
    rp_id: Seq<char>,
    credential_id: Seq<u8>,
    check_cred_protect: bool,
) -> Option<CredentialView> {
    if credential.credential_id != credential_id || credential.rp_id != rp_id {
        None
    } else if check_cred_protect && credential.user_verification_required() {
        None
    } else {
        Some(credential)
    }
}

/// What a lookup makes of the reply.
pub open spec fn find_outcome(
    reply: ReplyView,
    rp_id: Seq<char>,
    credential_id: Seq<u8>,
    check_cred_protect: bool,
) -> Result<Option<CredentialView>, Ctap2StatusCode> {
    match reply {
        ReplyView::Data(data) => match stored_credential(data) {
            Some(credential) => Ok(
                matched_credential(credential, rp_id, credential_id, check_cred_protect),
            ),
            None => Err(Ctap2StatusCode::CTAP2_ERR_INVALID_CREDENTIAL),
        },
        ReplyView::NotFound => Ok(None),
        _ => Err(Ctap2StatusCode::CTAP2_ERR_VENDOR_INTERNAL_ERROR),
    }
}

impl Query for FindCredential {
    type Output = Result<Option<PublicKeyCredentialSource>, Ctap2StatusCode>;

    fn request(&self) -> (request: Request)
        ensures
            request@ == read_credential(short_id(self.credential_id@)),
    {
        Request::Fetch {
            dict: Dict::Credentials,
            key: cid_to_str(self.credential_id.as_slice()),
            create_key: false,
            hint: Some(CREDENTIAL_ID_SIZE),
            limit: None,
        }
    }

    fn outcome(self, reply: Reply) -> (result: Result<
        Option<PublicKeyCredentialSource>,
        Ctap2StatusCode,
    >)
        ensures
            found_result(result) == find_outcome(
                reply@,
                self.rp_id@,
                self.credential_id@,
                self.check_cred_protect,
            ),
    {
        match reply {
            Reply::Data(data) => match deserialize_credential(data.as_slice()) {
                Some(credential) => {
                    if bytes_equal(
                        credential.credential_id.as_slice(),
                        self.credential_id.as_slice(),
                    ) && credential.rp_id == self.rp_id {
                        if self.check_cred_protect && credential.requires_user_verification() {
                            Ok(None)
                        } else {
                            Ok(Some(credential))
                        }
                    } else {
                        Ok(None)
                    }
                },
                None => Err(Ctap2StatusCode::CTAP2_ERR_INVALID_CREDENTIAL),
            },
            Reply::NotFound => Ok(None),
            _ => Err(Ctap2StatusCode::CTAP2_ERR_VENDOR_INTERNAL_ERROR),
        }
    }
}

/// The result of a lookup in the database.
pub open spec fn credential_in(
    db: Contents,
    rp_id: Seq<char>,
    credential_id: Seq<u8>,
    check_cred_protect: bool,
) -> Result<Option<CredentialView>, Ctap2StatusCode> {
    match value(db, Dict::Credentials, short_id(credential_id)) {
        Some(v) => match stored_credential(v) {
            Some(credential) => Ok(
                matched_credential(credential, rp_id, credential_id, check_cred_protect),
            ),
            None => Err(Ctap2StatusCode::CTAP2_ERR_INVALID_CREDENTIAL),
        },
        None => Ok(None),
    }
}

// ---------------- counting credentials ----------------------

/// Counts the credentials.
#[derive(Debug, PartialEq, Eq)]
pub struct CountCredentials;

/// What the count is.
pub open spec fn count_outcome(reply: ReplyView) -> Result<nat, Ctap2StatusCode> {
    match reply {
        ReplyView::Names(names) => Ok(credential_names(names).len()),
        _ => Err(Ctap2StatusCode::CTAP2_ERR_VENDOR_INTERNAL_ERROR),
    }
}

/// A count as a mathematical number.
pub open spec fn count_result(result: Result<usize, Ctap2StatusCode>) -> Result<
    nat,
    Ctap2StatusCode,
> {
    match result {
        Ok(n) => Ok(n as nat),
        Err(code) => Err(code),
    }
}

impl Query for CountCredentials {
    type Output = Result<usize, Ctap2StatusCode>;

    fn request(&self) -> (request: Request)
        ensures
            request@ == (RequestView::ListKeys { dict: Dict::Credentials }),
    {
        Request::ListKeys { dict: Dict::Credentials }
    }

    fn outcome(self, reply: Reply) -> (result: Result<usize, Ctap2StatusCode>)
        ensures
            count_result(result) == count_outcome(reply@),
    {
        match reply {
            Reply::Names(names) => {
                let retained = retain_credential_names(names);
                assert(texts(retained@).len() == retained@.len());
                Ok(retained.len())
            },
            _ => Err(Ctap2StatusCode::CTAP2_ERR_VENDOR_INTERNAL_ERROR),
        }
    }
}

/// The number of credentials in their dictionary.
pub open spec fn credential_count(keys: DictView) -> nat {
    keys.dom().remove(key::CRED_RANDOM_SECRET@).len()
}

/// The number of credentials in the database.
pub open spec fn count_in(db: Contents) -> Result<nat, Ctap2StatusCode> {
    if db.contains_key(Dict::Credentials) {
        Ok(credential_count(db[Dict::Credentials]))
    } else {
        Err(Ctap2StatusCode::CTAP2_ERR_VENDOR_INTERNAL_ERROR)
    }
}

/// A listing tells the number of credentials.
pub proof fn lemma_count(names: Seq<Seq<char>>, keys: DictView)
    requires
        lists(names, keys),
    ensures
        keys.dom().finite(),
        credential_names(names).len() == credential_count(keys),
{
    let retained = credential_names(names);
    lemma_others(names, key::CRED_RANDOM_SECRET@);
    assert(names.to_set() =~= keys.dom());
    assert(retained.to_set() =~= keys.dom().remove(key::CRED_RANDOM_SECRET@));
    names.unique_seq_to_set();
    retained.unique_seq_to_set();
    vstd::seq_lib::seq_to_set_is_finite(names);
}

// ---------------- filtering credentials ----------------------

/// Collects the credentials of a relying party.
#[derive(Debug, PartialEq, Eq)]
pub struct FilterCredential {
    rp_id: String,
    check_cred_protect: bool,
    scan: Scan,
}

/// Whether a credential is one of those that are asked for.
pub open spec fn selects(
    credential: CredentialView,
    rp_id: Seq<char>,
    check_cred_protect: bool,
) -> bool {
    credential.rp_id == rp_id && (credential.discoverable() || !check_cred_protect)
}

/// The credentials that are asked for, among those that were found.
pub open spec fn selected(
    found: Seq<FoundView>,
    rp_id: Seq<char>,
    check_cred_protect: bool,
) -> Seq<CredentialView>
    decreases found.len(),
{
    if found.len() == 0 {
        Seq::empty()
    } else {
        let before = selected(found.drop_last(), rp_id, check_cred_protect);
        if selects(found.last().1, rp_id, check_cred_protect) {
            before.push(found.last().1)
        } else {
            before
        }
    }
}

/// What a list of credentials says.
pub open spec fn credential_views(list: Seq<PublicKeyCredentialSource>) -> Seq<CredentialView> {
    list.map_values(|c: PublicKeyCredentialSource| c@)
}

/// Picks the credentials that are asked for.
pub fn select(found: Vec<Found>, rp_id: &String, check_cred_protect: bool) -> (result: Vec<
    PublicKeyCredentialSource,
>)
    ensures
        credential_views(result@) == selected(found_view(found@), rp_id@, check_cred_protect),
{
    let ghost all = found_view(found@);
    let mut found = found;
    let mut result: Vec<PublicKeyCredentialSource> = Vec::new();
    let ghost mut taken: int = 0;
    assert(all.take(0) =~= Seq::<FoundView>::empty());
    assert(credential_views(result@) =~= Seq::<CredentialView>::empty());
    assert(found_view(found@) =~= all.skip(0));
    while found.len() > 0
        invariant
            0 <= taken <= all.len(),
            found_view(found@) == all.skip(taken),
            credential_views(result@) == selected(all.take(taken), rp_id@, check_cred_protect),
        decreases found@.len(),
    {
        let ghost before = found_view(found@);
        let ghost chosen = credential_views(result@);
        assert(before.len() == found@.len() && before.len() == all.skip(taken).len());
        assert(taken < all.len());
        let first = found.remove(0);
        proof {
            assert(before[0] == (first.name@, first.credential@));
            assert(before[0] == all[taken]);
            assert(found_view(found@) =~= before.drop_first());
            assert(found_view(found@) =~= all.skip(taken + 1));
            assert(all.take(taken + 1).drop_last() =~= all.take(taken));
            assert(all.take(taken + 1).last() == all[taken]);
        }
        let credential = first.credential;
        if credential.rp_id == *rp_id && (credential.is_discoverable() || !check_cred_protect) {
            let ghost c = credential@;
            result.push(credential);
            assert(credential_views(result@) =~= chosen.push(c));
        }
        proof {
            taken = taken + 1;
        }
    }
    proof {
        assert(all.skip(taken).len() == 0);
        assert(all.take(taken) =~= all);
    }
    result
}

/// How far the collection has come.
pub struct FilterView {
    pub rp_id: Seq<char>,
    pub check_cred_protect: bool,
    pub scan: ScanView,
}

impl View for FilterCredential {
    type V = FilterView;

    closed spec fn view(&self) -> FilterView {
        FilterView {
            rp_id: self.rp_id@,
            check_cred_protect: self.check_cred_protect,
            scan: self.scan@,
        }
    }
}

/// What a collection of credentials says.
pub open spec fn list_result(
    result: Result<Vec<PublicKeyCredentialSource>, Ctap2StatusCode>,
) -> Result<Seq<CredentialView>, Ctap2StatusCode> {
    match result {
        Ok(list) => Ok(credential_views(list@)),
        Err(code) => Err(code),
    }
}

/// What follows from a reply.
pub open spec fn filter_resume(filter: FilterView, reply: ReplyView) -> Step<
    FilterView,
    Result<Seq<CredentialView>, Ctap2StatusCode>,
> {
    match scan_resume(filter.scan, reply) {
        ScanStepView::Ask(scan) => Step::Ask(FilterView { scan, ..filter }),
        ScanStepView::Broken => Step::Return(Err(Ctap2StatusCode::CTAP2_ERR_VENDOR_INTERNAL_ERROR)),
        ScanStepView::Complete { names, found } => Step::Return(
            Ok(selected(found, filter.rp_id, filter.check_cred_protect)),
        ),
    }
}

impl FilterCredential {
    /// Starts the collection.
    pub fn new(rp_id: String, check_cred_protect: bool) -> (filter: FilterCredential)
        ensures
            filter@ == (FilterView { rp_id: rp_id@, check_cred_protect, scan: ScanView::Listing }),
    {
        FilterCredential { rp_id, check_cred_protect, scan: Scan::Listing }
    }
}

impl Operation for FilterCredential {
    type Output = Result<Vec<PublicKeyCredentialSource>, Ctap2StatusCode>;

    fn request(&self) -> (request: Request)
        ensures
            request@ == scan_request(self@.scan),
    {
        self.scan.request()
    }

    fn resume(self, reply: Reply) -> (step: Step<
        FilterCredential,
        Result<Vec<PublicKeyCredentialSource>, Ctap2StatusCode>,
    >)
        ensures
            (match step {
                Step::Ask(filter) => Step::Ask(filter@),
                Step::Return(result) => Step::Return(list_result(result)),
            }) == filter_resume(self@, reply@),
    {
        match self.scan.resume(reply) {
            ScanStep::Ask(scan) => Step::Ask(
                FilterCredential {
                    rp_id: self.rp_id,
                    check_cred_protect: self.check_cred_protect,
                    scan,
                },
            ),
            ScanStep::Broken => Step::Return(
                Err(Ctap2StatusCode::CTAP2_ERR_VENDOR_INTERNAL_ERROR),
            ),
            ScanStep::Complete { names: _, found } => Step::Return(
                Ok(select(found, &self.rp_id, self.check_cred_protect)),
            ),
        }
    }
}

/// Whether `list` holds the credentials of a relying party, in the order of some listing.
pub open spec fn lists_credentials(
    list: Seq<CredentialView>,
    keys: DictView,
    rp_id: Seq<char>,
    check_cred_protect: bool,
) -> bool {
    exists|names: Seq<Seq<char>>| #[trigger]
        lists(names, keys) && list == selected(
            credentials_under(keys, credential_names(names)),
            rp_id,
            check_cred_protect,
        )
}

// ---------------- creation order ----------------------

/// Determines the creation order of the next credential.
#[derive(Debug, PartialEq, Eq)]
pub struct NewCreationOrder {
    scan: Scan,
}

/// The latest creation order among found credentials; 0 if there are none.
pub open spec fn latest(found: Seq<FoundView>) -> u64
    decreases found.len(),
{
    if found.len() == 0 {
        0
    } else {
        let before = latest(found.drop_last());
        if found.last().1.creation_order > before {
            found.last().1.creation_order
        } else {
            before
        }
    }
}

/// The creation order that follows another. In the end it wraps around.
pub open spec fn successor(order: u64) -> u64 {
    if order == u64::MAX {
        0
    } else {
        (order + 1) as u64
    }
}

/// The creation order of the next credential, where `names` are the keys of all credentials and
/// `found` are those that could be read.
pub open spec fn next_order(names: Seq<Seq<char>>, found: Seq<FoundView>) -> u64 {
    if names.len() == 0 {
        0
    } else {
        successor(latest(found))
    }
}

/// Whether a credential is stored under a key.
pub open spec fn is_stored(keys: DictView, name: Seq<char>, credential: CredentialView) -> bool {
    name != key::CRED_RANDOM_SECRET@ && credential_under(keys, name) == Some(credential)
}

/// Whether `order` is the latest creation order of all stored credentials, or 0 where that is the
/// latest or there are none.
pub open spec fn is_latest(keys: DictView, order: u64) -> bool {
    &&& forall|name: Seq<char>, credential: CredentialView| #[trigger]
        is_stored(keys, name, credential) ==> credential.creation_order <= order
    &&& order == 0 || exists|name: Seq<char>, credential: CredentialView| #[trigger]
        is_stored(keys, name, credential) && credential.creation_order == order
}

/// Whether `order` is the creation order of the next credential.
pub open spec fn is_next_order(keys: DictView, order: u64) -> bool {
    if credential_count(keys) == 0 {
        order == 0
    } else {
        exists|last: u64| #[trigger] is_latest(keys, last) && order == successor(last)
    }
}

/// No credential under some keys is later than the latest of them, which is one of them.
proof fn lemma_latest_under(keys: DictView, names: Seq<Seq<char>>)
    ensures
        ({
            let order = latest(credentials_under(keys, names));
            &&& forall|name: Seq<char>|
                names.contains(name) && credential_under(keys, name) is Some ==> (
                #[trigger] credential_under(keys, name))->0.creation_order <= order
            &&& order == 0 || exists|name: Seq<char>|
                names.contains(name) && credential_under(keys, name) is Some && (
                #[trigger] credential_under(keys, name))->0.creation_order == order
        }),
    decreases names.len(),
{
    if names.len() > 0 {
        let front = names.drop_last();
        let last = names.last();
        lemma_latest_under(keys, front);
        let before = credentials_under(keys, front);
        assert(names =~= front.push(last));
        assert forall|name: Seq<char>| names.contains(name) <==> front.contains(name) || name
            == last by {
            lemma_push_contains(front, last, name);
        }
        if credential_under(keys, last) is Some {
            let found = credentials_under(keys, names);
            assert(found.drop_last() =~= before);
            assert(found.last() == (last, credential_under(keys, last)->0));
        }
    }
}

/// The latest credential that a walk finds is the latest that is stored.
pub proof fn lemma_latest(names: Seq<Seq<char>>, keys: DictView)
    requires
        lists(names, keys),
    ensures
        is_latest(keys, latest(credentials_under(keys, credential_names(names)))),
{
    let all = credential_names(names);
    lemma_others(names, key::CRED_RANDOM_SECRET@);
    lemma_latest_under(keys, all);
    let order = latest(credentials_under(keys, all));
    assert forall|name: Seq<char>, credential: CredentialView| #[trigger]
        is_stored(keys, name, credential) implies credential.creation_order <= order by {
        assert(names.contains(name));
        assert(all.contains(name));
    }
    if order != 0 {
        let name = choose|name: Seq<char>|
            all.contains(name) && credential_under(keys, name) is Some && (
            #[trigger] credential_under(keys, name))->0.creation_order == order;
        assert(is_stored(keys, name, credential_under(keys, name)->0));
    }
}

/// The latest creation order among found credentials.
fn latest_order(found: &Vec<Found>) -> (order: u64)
    ensures
        order == latest(found_view(found@)),
{
    let ghost all = found_view(found@);
    let mut order: u64 = 0;
    let mut i: usize = 0;
    assert(all.take(0) =~= Seq::<FoundView>::empty());
    while i < found.len()
        invariant
            i <= found@.len(),
            all == found_view(found@),
            order == latest(all.take(i as int)),
        decreases found@.len() - i,
    {
        proof {
            assert(all.take(i + 1).drop_last() =~= all.take(i as int));
            assert(all.take(i + 1).last() == all[i as int]);
            assert(all[i as int] == (found@[i as int].name@, found@[i as int].credential@));
        }
        if found[i].credential.creation_order > order {
            order = found[i].credential.creation_order;
        }
        i = i + 1;
    }
    assert(all.take(i as int) =~= all);
    order
}

impl View for NewCreationOrder {
    type V = ScanView;

    closed spec fn view(&self) -> ScanView {
        self.scan@
    }
}

/// What follows from a reply.
pub open spec fn order_resume(scan: ScanView, reply: ReplyView) -> Step<
    ScanView,
    Result<u64, Ctap2StatusCode>,
> {
    match scan_resume(scan, reply) {
        ScanStepView::Ask(scan) => Step::Ask(scan),
        ScanStepView::Broken => Step::Return(Err(Ctap2StatusCode::CTAP2_ERR_VENDOR_INTERNAL_ERROR)),
        ScanStepView::Complete { names, found } => Step::Return(Ok(next_order(names, found))),
    }
}

impl NewCreationOrder {
    /// Starts the search.
    pub fn new() -> (order: NewCreationOrder)
        ensures
            order@ == ScanView::Listing,
    {
        NewCreationOrder { scan: Scan::Listing }
    }
}

impl Operation for NewCreationOrder {
    type Output = Result<u64, Ctap2StatusCode>;

    fn request(&self) -> (request: Request)
        ensures
            request@ == scan_request(self@),
    {
        self.scan.request()
    }

    fn resume(self, reply: Reply) -> (step: Step<NewCreationOrder, Result<u64, Ctap2StatusCode>>)
        ensures
            (match step {
                Step::Ask(order) => Step::Ask(order@),
                Step::Return(result) => Step::Return(result),
            }) == order_resume(self@, reply@),
    {
        match self.scan.resume(reply) {
            ScanStep::Ask(scan) => Step::Ask(NewCreationOrder { scan }),
            ScanStep::Broken => Step::Return(
                Err(Ctap2StatusCode::CTAP2_ERR_VENDOR_INTERNAL_ERROR),
            ),
            ScanStep::Complete { names, found } => {
                assert(texts(names@).len() == names@.len());
                if names.len() == 0 {
                    Step::Return(Ok(0))
                } else {
                    Step::Return(Ok(latest_order(&found).wrapping_add(1)))
                }
            },
        }
    }
}

} // verus!

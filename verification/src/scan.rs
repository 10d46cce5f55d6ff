//! Reading all credentials.
use vstd::prelude::*;
use crate::data_formats::PublicKeyCredentialSource;
use crate::key;
use crate::names::without_name;
use crate::record_format::deserialize_credential;
use crate::request::{Dict, Reply, Request};

verus! {

use crate::data_formats::CredentialView;
use crate::names::{lemma_others, others, texts};
use crate::pddb::{answers, lists, Contents, DictView};
use crate::record_format::stored_credential;
use crate::request::{ReplyView, RequestView};

/// Size of a credential ID, and the size hint for reading a credential.
pub const CREDENTIAL_ID_SIZE: usize = 112;

/// A credential and the name of its key.
#[derive(Debug, PartialEq, Eq)]
pub struct Found {
    pub name: String,
    pub credential: PublicKeyCredentialSource,
}

/// What a found credential says.
pub type FoundView = (Seq<char>, CredentialView);

/// What found credentials say.
pub open spec fn found_view(found: Seq<Found>) -> Seq<FoundView> {
    found.map_values(|f: Found| (f.name@, f.credential@))
}

/// The names that belong to credentials: all but that of the CredRandom secrets.
pub open spec fn credential_names(names: Seq<Seq<char>>) -> Seq<Seq<char>> {
    others(names, key::CRED_RANDOM_SECRET@)
}

/// Keeps the names that belong to credentials.
pub fn retain_credential_names(names: Vec<String>) -> (retained: Vec<String>)
    ensures
        texts(retained@) == credential_names(texts(names@)),
{
    without_name(names, &key::CRED_RANDOM_SECRET.to_owned())
}

/// A walk through all credentials: their keys are listed and then read one by one. A key that
/// cannot be opened, or that holds no credential, is passed over.
#[derive(Debug, PartialEq, Eq)]
pub enum Scan {
    /// The keys are being listed.
    Listing,
    /// The key `current` is being read.
    Reading { done: Vec<String>, current: String, rest: Vec<String>, found: Vec<Found> },
}

/// What follows from a reply.
#[derive(Debug, PartialEq, Eq)]
pub enum ScanStep {
    /// There is another request.
    Ask(Scan),
    /// The keys could not be listed, or an open key could not be read.
    Broken,
    /// The walk has ended. `names` are the keys of all credentials.
    Complete { names: Vec<String>, found: Vec<Found> },
}

/// How far a walk has come.
pub enum ScanView {
    Listing,
    Reading {
        done: Seq<Seq<char>>,
        current: Seq<char>,
        rest: Seq<Seq<char>>,
        found: Seq<FoundView>,
    },
}

/// What follows from a reply.
pub enum ScanStepView {
    Ask(ScanView),
    Broken,
    Complete { names: Seq<Seq<char>>, found: Seq<FoundView> },
}

impl View for Scan {
    type V = ScanView;

    open spec fn view(&self) -> ScanView {
        match *self {
            Scan::Listing => ScanView::Listing,
            Scan::Reading { done, current, rest, found } => ScanView::Reading {
                done: texts(done@),
                current: current@,
                rest: texts(rest@),
                found: found_view(found@),
            },
        }
    }
}

impl View for ScanStep {
    type V = ScanStepView;

    open spec fn view(&self) -> ScanStepView {
        match *self {
            ScanStep::Ask(scan) => ScanStepView::Ask(scan@),
            ScanStep::Broken => ScanStepView::Broken,
            ScanStep::Complete { names, found } => ScanStepView::Complete {
                names: texts(names@),
                found: found_view(found@),
            },
        }
    }
}

/// Reading a credential's key.
pub open spec fn read_credential(name: Seq<char>) -> RequestView {
    RequestView::Fetch {
        dict: Dict::Credentials,
        key: name,
        create_key: false,
        hint: Some(CREDENTIAL_ID_SIZE),
        limit: None,
    }
}

/// What a walk asks next.
pub open spec fn scan_request(scan: ScanView) -> RequestView {
    match scan {
        ScanView::Listing => RequestView::ListKeys { dict: Dict::Credentials },
        ScanView::Reading { current, .. } => read_credential(current),
    }
}

/// Turns to the next key, if there is one.
pub open spec fn scan_proceed(
    done: Seq<Seq<char>>,
    rest: Seq<Seq<char>>,
    found: Seq<FoundView>,
) -> ScanStepView {
    if rest.len() == 0 {
        ScanStepView::Complete { names: done, found }
    } else {
        ScanStepView::Ask(
            ScanView::Reading { done, current: rest.first(), rest: rest.drop_first(), found },
        )
    }
}

/// What follows from a reply.
pub open spec fn scan_resume(scan: ScanView, reply: ReplyView) -> ScanStepView {
    match scan {
        ScanView::Listing => match reply {
            ReplyView::Names(names) => scan_proceed(
                Seq::empty(),
                credential_names(names),
                Seq::empty(),
            ),
            _ => ScanStepView::Broken,
        },
        ScanView::Reading { done, current, rest, found } => match reply {
            ReplyView::Data(data) => match stored_credential(data) {
                Some(credential) => scan_proceed(
                    done.push(current),
                    rest,
                    found.push((current, credential)),
                ),
                None => scan_proceed(done.push(current), rest, found),
            },
            ReplyView::NotFound => scan_proceed(done.push(current), rest, found),
            ReplyView::Refused => scan_proceed(done.push(current), rest, found),
            _ => ScanStepView::Broken,
        },
    }
}

/// Turns to the next key, if there is one.
fn proceed(done: Vec<String>, rest: Vec<String>, found: Vec<Found>) -> (step: ScanStep)
    ensures
        step@ == scan_proceed(texts(done@), texts(rest@), found_view(found@)),
{
    if rest.len() == 0 {
        ScanStep::Complete { names: done, found }
    } else {
        let mut rest = rest;
        let ghost all = texts(rest@);
        let current = rest.remove(0);
        assert(texts(rest@) =~= all.drop_first());
        ScanStep::Ask(Scan::Reading { done, current, rest, found })
    }
}

impl Scan {
    /// What the database is asked next.
    pub fn request(&self) -> (request: Request)
        ensures
            request@ == scan_request(self@),
    {
        match self {
            Scan::Listing => Request::ListKeys { dict: Dict::Credentials },
            Scan::Reading { current, .. } => Request::Fetch {
                dict: Dict::Credentials,
                key: current.clone(),
                create_key: false,
                hint: Some(CREDENTIAL_ID_SIZE),
                limit: None,
            },
        }
    }

    /// What follows from the reply.
    pub fn resume(self, reply: Reply) -> (step: ScanStep)
        ensures
            step@ == scan_resume(self@, reply@),
    {
        match self {
            Scan::Listing => match reply {
                Reply::Names(names) => {
                    let done: Vec<String> = Vec::new();
                    let found: Vec<Found> = Vec::new();
                    assert(texts(done@) =~= Seq::<Seq<char>>::empty());
                    assert(found_view(found@) =~= Seq::<FoundView>::empty());
                    proceed(done, retain_credential_names(names), found)
                },
                _ => ScanStep::Broken,
            },
            Scan::Reading { done, current, rest, found } => {
                let ghost read = texts(done@).push(current@);
                let ghost so_far = found_view(found@);
                match reply {
                    Reply::Data(data) => {
                        let mut done = done;
                        let mut found = found;
                        done.push(current.clone());
                        assert(texts(done@) =~= read);
                        match deserialize_credential(data.as_slice()) {
                            Some(credential) => {
                                let ghost c = credential@;
                                found.push(Found { name: current, credential });
                                assert(found_view(found@) =~= so_far.push((current@, c)));
                            },
                            None => {},
                        }
                        proceed(done, rest, found)
                    },
                    Reply::NotFound | Reply::Refused => {
                        let mut done = done;
                        done.push(current);
                        assert(texts(done@) =~= read);
                        proceed(done, rest, found)
                    },
                    _ => ScanStep::Broken,
                }
            },
        }
    }
}

/// The credential under a key, if there is one.
pub open spec fn credential_under(keys: DictView, name: Seq<char>) -> Option<CredentialView> {
    if keys.contains_key(name) {
        stored_credential(keys[name])
    } else {
        None
    }
}

/// The credentials under some keys, in the order of the keys.
pub open spec fn credentials_under(keys: DictView, names: Seq<Seq<char>>) -> Seq<FoundView>
    decreases names.len(),
{
    if names.len() == 0 {
        Seq::empty()
    } else {
        let before = credentials_under(keys, names.drop_last());
        match credential_under(keys, names.last()) {
            Some(credential) => before.push((names.last(), credential)),
            None => before,
        }
    }
}

/// Whether a walk through the keys `names` of a dictionary has come as far as `scan` says.
pub open spec fn scan_progress(keys: DictView, names: Seq<Seq<char>>, scan: ScanView) -> bool {
    match scan {
        ScanView::Listing => true,
        ScanView::Reading { done, current, rest, found } => {
            &&& lists(names, keys)
            &&& done.push(current) + rest == credential_names(names)
            &&& found == credentials_under(keys, done)
        },
    }
}

/// How many phases of a walk are still to come.
pub open spec fn scan_stage(scan: ScanView) -> nat {
    match scan {
        ScanView::Listing => 1,
        ScanView::Reading { .. } => 0,
    }
}

/// How many requests of a walk are still to come after this one, once the keys are listed.
pub open spec fn scan_left(scan: ScanView) -> nat {
    match scan {
        ScanView::Listing => 0,
        ScanView::Reading { rest, .. } => rest.len(),
    }
}

/// A walk through a database does not break off, comes to an end, and finds every credential.
pub proof fn lemma_scan(db: Contents, names: Seq<Seq<char>>, scan: ScanView, reply: ReplyView) -> (
    listed: Seq<Seq<char>>)
    requires
        db.contains_key(Dict::Credentials),
        scan_progress(db[Dict::Credentials], names, scan),
        answers(db, scan_request(scan), reply, db),
    ensures
        lists(listed, db[Dict::Credentials]),
        match scan_resume(scan, reply) {
            ScanStepView::Ask(next) => {
                &&& next is Reading
                &&& scan_progress(db[Dict::Credentials], listed, next)
                &&& scan is Listing || scan_left(next) < scan_left(scan)
            },
            ScanStepView::Broken => false,
            ScanStepView::Complete { names, found } => {
                &&& names == credential_names(listed)
                &&& found == credentials_under(db[Dict::Credentials], names)
            },
        },
{
    let keys = db[Dict::Credentials];
    match scan {
        ScanView::Listing => {
            let listed = reply->Names_0;
            let all = credential_names(listed);
            if all.len() > 0 {
                let done = Seq::<Seq<char>>::empty();
                assert(done.push(all.first()) + all.drop_first() =~= all);
            } else {
                assert(all =~= Seq::<Seq<char>>::empty());
            }
            listed
        },
        ScanView::Reading { done, current, rest, found } => {
            let all = credential_names(names);
            let read = done.push(current);
            lemma_others(names, key::CRED_RANDOM_SECRET@);
            assert((read + rest)[done.len() as int] == current);
            assert(all.contains(current));
            assert(names.contains(current));
            assert(read.drop_last() =~= done);
            if rest.len() > 0 {
                assert(read.push(rest.first()) + rest.drop_first() =~= read + rest);
            } else {
                assert(read + rest =~= read);
            }
            names
        },
    }
}

} // verus!

//! The conversation with the database.
//!
//! The store itself touches no database. It says what it asks of one, in a [`Request`], and what
//! it makes of the [`Reply`]. A [`Query`] ends after one reply; an [`Operation`] may go on asking.
use vstd::prelude::*;

verus! {

use crate::names::texts;

/// The dictionaries of the database.
#[derive(Clone, Copy, Debug, PartialEq, Eq, Structural)]
pub enum Dict {
    /// Configuration and secrets, which a CTAP reset erases.
    Config,
    /// Credentials and the CredRandom secrets, which a CTAP reset erases.
    Credentials,
    /// What outlasts a CTAP reset.
    Persistent,
}

pub const FIDO_DICT: &'static str = "fido.cfg";

pub const FIDO_CRED_DICT: &'static str = "fido.cred";

pub const FIDO_PERSISTENT_DICT: &'static str = "fido.persistent";

impl Dict {
    /// The name of a dictionary.
    pub open spec fn spec_name(self) -> Seq<char> {
        match self {
            Dict::Config => FIDO_DICT@,
            Dict::Credentials => FIDO_CRED_DICT@,
            Dict::Persistent => FIDO_PERSISTENT_DICT@,
        }
    }

    /// The name of the dictionary in the database.
    pub fn name(self) -> (name: &'static str)
        ensures
            name@ == self.spec_name(),
    {
        match self {
            Dict::Config => FIDO_DICT,
            Dict::Credentials => FIDO_CRED_DICT,
            Dict::Persistent => FIDO_PERSISTENT_DICT,
        }
    }
}

/// What the database is asked to do.
#[derive(Debug, PartialEq, Eq)]
pub enum Request {
    /// Open a key of an existing dictionary and read it from the start: at most `limit` bytes, or
    /// all of it. With `create_key`, a missing key is created.
    Fetch {
        dict: Dict,
        key: String,
        create_key: bool,
        hint: Option<usize>,
        limit: Option<usize>,
    },
    /// Open a key, creating the key and its dictionary where they are missing, and tell how long
    /// its value is.
    Measure { dict: Dict, key: String, hint: Option<usize> },
    /// Open a key of an existing dictionary, creating the key where it is missing, and write from
    /// its start. What the key held beyond the written bytes stays.
    Write { dict: Dict, key: String, hint: Option<usize>, data: Vec<u8> },
    /// Delete a key.
    DeleteKey { dict: Dict, key: String },
    /// Delete a dictionary with all its keys.
    DeleteDict { dict: Dict },
    /// List the keys of a dictionary.
    ListKeys { dict: Dict },
}

/// What came of a request.
#[derive(Debug, PartialEq, Eq)]
pub enum Reply {
    /// There is no such dictionary or key.
    NotFound,
    /// The key could not be opened, or the dictionary could not be listed or deleted, for another
    /// reason.
    Refused,
    /// The key was opened, but could not be read, measured or written.
    Failed,
    /// The bytes that were read.
    Data(Vec<u8>),
    /// The length of the value.
    Length(usize),
    /// The number of bytes that were written.
    Written(usize),
    /// The names of the keys.
    Names(Vec<String>),
    /// The key or the dictionary was deleted.
    Deleted,
}

/// What a request says.
pub enum RequestView {
    Fetch {
        dict: Dict,
        key: Seq<char>,
        create_key: bool,
        hint: Option<usize>,
        limit: Option<usize>,
    },
    Measure { dict: Dict, key: Seq<char>, hint: Option<usize> },
    Write { dict: Dict, key: Seq<char>, hint: Option<usize>, data: Seq<u8> },
    DeleteKey { dict: Dict, key: Seq<char> },
    DeleteDict { dict: Dict },
    ListKeys { dict: Dict },
}

/// What a reply says.
pub enum ReplyView {
    NotFound,
    Refused,
    Failed,
    Data(Seq<u8>),
    Length(usize),
    Written(usize),
    Names(Seq<Seq<char>>),
    Deleted,
}

impl View for Request {
    type V = RequestView;

    open spec fn view(&self) -> RequestView {
        match *self {
            Request::Fetch { dict, key, create_key, hint, limit } => RequestView::Fetch {
                dict,
                key: key@,
                create_key,
                hint,
                limit,
            },
            Request::Measure { dict, key, hint } => RequestView::Measure { dict, key: key@, hint },
            Request::Write { dict, key, hint, data } => RequestView::Write {
                dict,
                key: key@,
                hint,
                data: data@,
            },
            Request::DeleteKey { dict, key } => RequestView::DeleteKey { dict, key: key@ },
            Request::DeleteDict { dict } => RequestView::DeleteDict { dict },
            Request::ListKeys { dict } => RequestView::ListKeys { dict },
        }
    }
}

impl View for Reply {
    type V = ReplyView;

    open spec fn view(&self) -> ReplyView {
        match *self {
            Reply::NotFound => ReplyView::NotFound,
            Reply::Refused => ReplyView::Refused,
            Reply::Failed => ReplyView::Failed,
            Reply::Data(data) => ReplyView::Data(data@),
            Reply::Length(n) => ReplyView::Length(n),
            Reply::Written(n) => ReplyView::Written(n),
            Reply::Names(names) => ReplyView::Names(texts(names@)),
            Reply::Deleted => ReplyView::Deleted,
        }
    }
}

/// A request whose reply settles the matter.
pub trait Query: Sized {
    type Output;

    /// What the database is asked.
    fn request(&self) -> Request;

    /// What the reply means.
    fn outcome(self, reply: Reply) -> Self::Output;
}

/// What to do after a reply.
#[derive(Debug, PartialEq, Eq)]
pub enum Step<O, T> {
    /// Send the next request.
    Ask(O),
    /// The operation has ended.
    Return(T),
}

/// A series of requests, each of which may depend on the replies before it.
pub trait Operation: Sized {
    type Output;

    /// What the database is asked next.
    fn request(&self) -> Request;

    /// What follows from the reply.
    fn resume(self, reply: Reply) -> Step<Self, Self::Output>;
}

} // verus!

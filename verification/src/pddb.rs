//! The database, held in memory.
use vstd::prelude::*;
use vstd::slice::{slice_subrange, slice_to_vec};
use crate::request::{Dict, Reply, Request};

verus! {

use crate::names::texts;
use crate::request::{ReplyView, RequestView};

/// What a dictionary holds: a byte string under each key name.
pub type DictView = Map<Seq<char>, Seq<u8>>;

/// What the database holds.
pub type Contents = Map<Dict, DictView>;

/// The value under a key, if there is one.
pub open spec fn value(db: Contents, dict: Dict, key: Seq<char>) -> Option<Seq<u8>> {
    if db.contains_key(dict) && db[dict].contains_key(key) {
        Some(db[dict][key])
    } else {
        None
    }
}

/// The database with a value under a key.
pub open spec fn with_value(db: Contents, dict: Dict, key: Seq<char>, v: Seq<u8>) -> Contents {
    let keys = if db.contains_key(dict) {
        db[dict]
    } else {
        Map::empty()
    };
    db.insert(dict, keys.insert(key, v))
}

/// The database without a key.
pub open spec fn without_key(db: Contents, dict: Dict, key: Seq<char>) -> Contents {
    if db.contains_key(dict) {
        db.insert(dict, db[dict].remove(key))
    } else {
        db
    }
}

/// The first bytes of a value: at most `limit` of them, or all.
pub open spec fn head(v: Seq<u8>, limit: Option<usize>) -> Seq<u8> {
    match limit {
        Some(n) if n < v.len() => v.take(n as int),
        _ => v,
    }
}

/// What a key holds once `data` is written from its start.
pub open spec fn overwritten(v: Seq<u8>, data: Seq<u8>) -> Seq<u8> {
    if data.len() < v.len() {
        data + v.skip(data.len() as int)
    } else {
        data
    }
}

/// Whether `names` lists the keys of a dictionary, each of them once and in any order.
pub open spec fn lists(names: Seq<Seq<char>>, keys: DictView) -> bool {
    &&& names.no_duplicates()
    &&& forall|name: Seq<char>| #[trigger] names.contains(name) <==> keys.contains_key(name)
}

/// Whether a database that holds `before` may give `reply` to a request and hold `after` then.
pub open spec fn answers(
    before: Contents,
    request: RequestView,
    reply: ReplyView,
    after: Contents,
) -> bool {
    match request {
        RequestView::Fetch { dict, key, create_key, hint, limit } => match value(
            before,
            dict,
            key,
        ) {
            Some(v) => reply == ReplyView::Data(head(v, limit)) && after == before,
            None => if create_key && before.contains_key(dict) {
                reply == ReplyView::Data(Seq::empty()) && after == with_value(
                    before,
                    dict,
                    key,
                    Seq::empty(),
                )
            } else {
                reply == ReplyView::NotFound && after == before
            },
        },
        RequestView::Measure { dict, key, hint } => match value(before, dict, key) {
            Some(v) => {
                &&& reply is Length
                &&& reply->Length_0 == v.len()
                &&& after == before
            },
            None => reply == ReplyView::Length(0) && after == with_value(
                before,
                dict,
                key,
                Seq::empty(),
            ),
        },
        RequestView::Write { dict, key, hint, data } => if before.contains_key(dict) {
            let v = match value(before, dict, key) {
                Some(v) => v,
                None => Seq::empty(),
            };
            &&& reply is Written
            &&& reply->Written_0 == data.len()
            &&& after == with_value(before, dict, key, overwritten(v, data))
        } else {
            reply == ReplyView::NotFound && after == before
        },
        RequestView::DeleteKey { dict, key } => if value(before, dict, key) is Some {
            reply == ReplyView::Deleted && after == without_key(before, dict, key)
        } else {
            reply == ReplyView::NotFound && after == before
        },
        RequestView::DeleteDict { dict } => if before.contains_key(dict) {
            reply == ReplyView::Deleted && after == before.remove(dict)
        } else {
            reply == ReplyView::NotFound && after == before
        },
        RequestView::ListKeys { dict } => if before.contains_key(dict) {
            &&& reply is Names
            &&& lists(reply->Names_0, before[dict])
            &&& after == before
        } else {
            reply == ReplyView::NotFound && after == before
        },
    }
}

/// Whether a request leaves the database as it is.
pub open spec fn reads_only(request: RequestView) -> bool {
    match request {
        RequestView::Fetch { create_key, .. } => !create_key,
        RequestView::ListKeys { .. } => true,
        _ => false,
    }
}

/// A key of a dictionary and its value.
struct Entry {
    name: String,
    value: Vec<u8>,
}

/// A dictionary.
struct Dictionary {
    entries: Vec<Entry>,
}

/// The place of a name among the entries, if it is there.
spec fn place(entries: Seq<Entry>, name: Seq<char>) -> int {
    choose|i: int| 0 <= i < entries.len() && entries[i].name@ == name
}

impl View for Dictionary {
    type V = DictView;

    closed spec fn view(&self) -> DictView {
        Map::new(
            |name: Seq<char>|
                exists|i: int| 0 <= i < self.entries@.len() && self.entries@[i].name@ == name,
            |name: Seq<char>| self.entries@[place(self.entries@, name)].value@,
        )
    }
}

impl Dictionary {
    /// No name occurs twice.
    #[verifier::type_invariant]
    spec fn names_unique(self) -> bool {
        forall|i: int, j: int|
            #![trigger self.entries@[i].name, self.entries@[j].name]
            0 <= i < j < self.entries@.len() ==> self.entries@[i].name@ != self.entries@[j].name@
    }

    /// Each entry stands in the view.
    proof fn lemma_entry(self, i: int)
        requires
            self.names_unique(),
            0 <= i < self.entries@.len(),
        ensures
            self@.contains_key(self.entries@[i].name@),
            self@[self.entries@[i].name@] == self.entries@[i].value@,
    {
        let name = self.entries@[i].name@;
        let p = place(self.entries@, name);
        assert(0 <= p < self.entries@.len() && self.entries@[p].name@ == name);
    }

    fn new() -> (dictionary: Dictionary)
        ensures
            dictionary@ == DictView::empty(),
    {
        let dictionary = Dictionary { entries: Vec::new() };
        assert(dictionary@ =~= DictView::empty());
        dictionary
    }

    fn position(&self, name: &String) -> (position: Option<usize>)
        ensures
            match position {
                Some(i) => i < self.entries@.len() && self.entries@[i as int].name@ == name@,
                None => !self@.contains_key(name@),
            },
    {
        let mut i: usize = 0;
        while i < self.entries.len()
            invariant
                i <= self.entries@.len(),
                forall|j: int| 0 <= j < i ==> (#[trigger] self.entries@[j]).name@ != name@,
            decreases self.entries@.len() - i,
        {
            if self.entries[i].name == *name {
                return Some(i);
            }
            i = i + 1;
        }
        None
    }

    fn get(&self, name: &String) -> (value: Option<&Vec<u8>>)
        ensures
            match value {
                Some(v) => self@.contains_key(name@) && v@ == self@[name@],
                None => !self@.contains_key(name@),
            },
    {
        match self.position(name) {
            Some(i) => {
                proof {
                    use_type_invariant(self);
                    self.lemma_entry(i as int);
                }
                Some(&self.entries[i].value)
            },
            None => None,
        }
    }

    fn remove(self, name: &String) -> (dictionary: Dictionary)
        ensures
            dictionary@ == self@.remove(name@),
    {
        let position = self.position(name);
        proof {
            use_type_invariant(&self);
        }
        let ghost before = self;
        match position {
            Some(i) => {
                let mut entries = self.entries;
                entries.remove(i);
                let dictionary = Dictionary { entries };
                proof {
                    let after = dictionary;
                    assert(after.entries@ =~= before.entries@.remove(i as int));
                    assert forall|j: int| 0 <= j < after.entries@.len() implies after@.contains_key(
                        #[trigger] after.entries@[j].name@,
                    ) && before@.remove(name@).contains_key(after.entries@[j].name@)
                        && after@[after.entries@[j].name@]
                        == before@[after.entries@[j].name@] by {
                        after.lemma_entry(j);
                        let k = if j < i {
                            j
                        } else {
                            j + 1
                        };
                        assert(after.entries@[j] == before.entries@[k]);
                        before.lemma_entry(k);
                    }
                    assert forall|n: Seq<char>| #[trigger] before@.remove(name@).contains_key(
                        n,
                    ) implies after@.contains_key(n) by {
                        let k = place(before.entries@, n);
                        assert(before.entries@[k].name@ == n);
                        let j = if k < i {
                            k
                        } else {
                            k - 1
                        };
                        assert(after.entries@[j] == before.entries@[k]);
                    }
                    assert(after@ =~= before@.remove(name@));
                }
                dictionary
            },
            None => {
                assert(self@ =~= self@.remove(name@));
                self
            },
        }
    }

    fn put(self, name: String, value: Vec<u8>) -> (dictionary: Dictionary)
        ensures
            dictionary@ == self@.insert(name@, value@),
    {
        let ghost whole = self;
        let rest = self.remove(&name);
        proof {
            use_type_invariant(&rest);
        }
        let ghost before = rest;
        let ghost n = name@;
        let ghost v = value@;
        let mut entries = rest.entries;
        assert forall|j: int| 0 <= j < before.entries@.len() implies (
        #[trigger] before.entries@[j]).name@ != n by {
            before.lemma_entry(j);
        }
        entries.push(Entry { name, value });
        let dictionary = Dictionary { entries };
        proof {
            let after = dictionary;
            let last = before.entries@.len() as int;
            after.lemma_entry(last);
            assert(after.entries@[last].name@ == n);
            assert forall|m: Seq<char>| m != n implies #[trigger] after@.contains_key(m)
                == whole@.contains_key(m) && (whole@.contains_key(m) ==> after@[m]
                == whole@[m]) by {
                assert(before@.contains_key(m) == whole@.contains_key(m));
                if before@.contains_key(m) {
                    let k = place(before.entries@, m);
                    assert(before.entries@[k].name@ == m);
                    assert(after.entries@[k] == before.entries@[k]);
                    after.lemma_entry(k);
                    before.lemma_entry(k);
                }
                if after@.contains_key(m) {
                    let k = place(after.entries@, m);
                    assert(after.entries@[k].name@ == m);
                    assert(after.entries@[k] == before.entries@[k]);
                }
            }
            assert(after@ =~= whole@.insert(n, v));
        }
        dictionary
    }

    fn names(&self) -> (names: Vec<String>)
        ensures
            lists(texts(names@), self@),
    {
        let mut names: Vec<String> = Vec::new();
        let mut i: usize = 0;
        while i < self.entries.len()
            invariant
                i <= self.entries@.len(),
                names@.len() == i,
                forall|j: int|
                    0 <= j < i ==> (#[trigger] names@[j])@ == self.entries@[j].name@,
            decreases self.entries@.len() - i,
        {
            names.push(self.entries[i].name.clone());
            i = i + 1;
        }
        proof {
            use_type_invariant(self);
            let list = texts(names@);
            assert forall|name: Seq<char>| #[trigger] list.contains(name) <==> self@.contains_key(
                name,
            ) by {
                if list.contains(name) {
                    let j = choose|j: int| 0 <= j < list.len() && list[j] == name;
                    assert(self.entries@[j].name@ == name);
                }
                if self@.contains_key(name) {
                    let k = place(self.entries@, name);
                    assert(list[k] == name);
                }
            }
            assert forall|a: int, b: int|
                0 <= a < list.len() && 0 <= b < list.len() && a != b implies list[a]
                != list[b] by {
                assert(self.entries@[a].name@ != self.entries@[b].name@);
            }
        }
        names
    }
}

/// The database, held in memory. The store may run on it where there is no other: it answers every
/// request.
pub struct Pddb {
    config: Option<Dictionary>,
    credentials: Option<Dictionary>,
    persistent: Option<Dictionary>,
}

impl View for Pddb {
    type V = Contents;

    closed spec fn view(&self) -> Contents {
        Map::new(|dict: Dict| self.opt(dict) is Some, |dict: Dict| self.opt(dict)->0@)
    }
}

impl Pddb {
    /// A dictionary, if it is there.
    spec fn opt(self, dict: Dict) -> Option<Dictionary> {
        match dict {
            Dict::Config => self.config,
            Dict::Credentials => self.credentials,
            Dict::Persistent => self.persistent,
        }
    }

    /// An empty database.
    pub fn new() -> (pddb: Pddb)
        ensures
            pddb@ == Contents::empty(),
    {
        let pddb = Pddb { config: None, credentials: None, persistent: None };
        assert(pddb@ =~= Contents::empty());
        pddb
    }

    fn dict(&self, dict: Dict) -> (dictionary: &Option<Dictionary>)
        ensures
            *dictionary == self.opt(dict),
    {
        match dict {
            Dict::Config => &self.config,
            Dict::Credentials => &self.credentials,
            Dict::Persistent => &self.persistent,
        }
    }

    fn take(&mut self, dict: Dict) -> (dictionary: Option<Dictionary>)
        ensures
            dictionary == old(self).opt(dict),
            final(self)@ == old(self)@.remove(dict),
    {
        let dictionary = match dict {
            Dict::Config => self.config.take(),
            Dict::Credentials => self.credentials.take(),
            Dict::Persistent => self.persistent.take(),
        };
        assert(self@ =~= old(self)@.remove(dict));
        dictionary
    }

    fn set(&mut self, dict: Dict, dictionary: Dictionary)
        ensures
            final(self)@ == old(self)@.insert(dict, dictionary@),
    {
        match dict {
            Dict::Config => {
                self.config = Some(dictionary);
            },
            Dict::Credentials => {
                self.credentials = Some(dictionary);
            },
            Dict::Persistent => {
                self.persistent = Some(dictionary);
            },
        }
        assert(self@ =~= old(self)@.insert(dict, dictionary@));
    }

    /// Answers a request that leaves the database as it is.
    pub fn query(&self, request: Request) -> (reply: Reply)
        requires
            reads_only(request@),
        ensures
            answers(self@, request@, reply@, self@),
    {
        match request {
            Request::Fetch { dict, key, create_key: _, hint: _, limit } => match self.dict(dict) {
                Some(d) => match d.get(&key) {
                    Some(v) => Reply::Data(first_bytes(v, limit)),
                    None => Reply::NotFound,
                },
                None => Reply::NotFound,
            },
            Request::ListKeys { dict } => match self.dict(dict) {
                Some(d) => Reply::Names(d.names()),
                None => Reply::NotFound,
            },
            _ => Reply::Refused,
        }
    }

    /// Answers a request.
    pub fn perform(&mut self, request: Request) -> (reply: Reply)
        ensures
            answers(old(self)@, request@, reply@, final(self)@),
    {
        match request {
            Request::Fetch { dict, key, create_key, hint, limit } => {
                if create_key {
                    match self.take(dict) {
                        Some(d) => {
                            match d.get(&key) {
                                Some(v) => {
                                    let data = first_bytes(v, limit);
                                    self.set(dict, d);
                                    assert(self@ =~= old(self)@);
                                    Reply::Data(data)
                                },
                                None => {
                                    self.set(dict, d.put(key, Vec::new()));
                                    assert(self@ =~= with_value(
                                        old(self)@,
                                        dict,
                                        key@,
                                        Seq::empty(),
                                    ));
                                    Reply::Data(Vec::new())
                                },
                            }
                        },
                        None => {
                            assert(self@ =~= old(self)@);
                            Reply::NotFound
                        },
                    }
                } else {
                    self.query(Request::Fetch { dict, key, create_key, hint, limit })
                }
            },
            Request::Measure { dict, key, hint: _ } => {
                let d = match self.take(dict) {
                    Some(d) => d,
                    None => Dictionary::new(),
                };
                match d.get(&key) {
                    Some(v) => {
                        let len = v.len();
                        self.set(dict, d);
                        assert(self@ =~= old(self)@);
                        Reply::Length(len)
                    },
                    None => {
                        self.set(dict, d.put(key, Vec::new()));
                        assert(self@ =~= with_value(old(self)@, dict, key@, Seq::empty()));
                        Reply::Length(0)
                    },
                }
            },
            Request::Write { dict, key, hint: _, data } => match self.take(dict) {
                Some(d) => {
                    let len = data.len();
                    let v = match d.get(&key) {
                        Some(v) => overwrite(v, data),
                        None => data,
                    };
                    self.set(dict, d.put(key, v));
                    assert(self@ =~= with_value(old(self)@, dict, key@, v@));
                    Reply::Written(len)
                },
                None => {
                    assert(self@ =~= old(self)@);
                    Reply::NotFound
                },
            },
            Request::DeleteKey { dict, key } => match self.take(dict) {
                Some(d) => {
                    let found = d.get(&key).is_some();
                    let ghost before = d@;
                    self.set(dict, d.remove(&key));
                    assert(self@ =~= old(self)@.insert(dict, before.remove(key@)));
                    if found {
                        Reply::Deleted
                    } else {
                        assert(before.remove(key@) =~= before);
                        assert(self@ =~= old(self)@);
                        Reply::NotFound
                    }
                },
                None => {
                    assert(self@ =~= old(self)@);
                    Reply::NotFound
                },
            },
            Request::DeleteDict { dict } => match self.take(dict) {
                Some(_) => Reply::Deleted,
                None => {
                    assert(self@ =~= old(self)@);
                    Reply::NotFound
                },
            },
            Request::ListKeys { dict } => self.query(Request::ListKeys { dict }),
        }
    }
}

/// What a key holds once `data` is written over `v` from the start.
fn overwrite(v: &Vec<u8>, data: Vec<u8>) -> (result: Vec<u8>)
    ensures
        result@ == overwritten(v@, data@),
{
    let mut result = data;
    if result.len() < v.len() {
        let mut tail = slice_to_vec(slice_subrange(v.as_slice(), result.len(), v.len()));
        result.append(&mut tail);
    }
    assert(result@ =~= overwritten(v@, data@));
    result
}

fn first_bytes(v: &Vec<u8>, limit: Option<usize>) -> (data: Vec<u8>)
    ensures
        data@ == head(v@, limit),
{
    let mut data = slice_to_vec(v.as_slice());
    match limit {
        Some(n) => {
            if n < v.len() {
                data.truncate(n);
            }
        },
        None => {},
    }
    data
}

} // verus!

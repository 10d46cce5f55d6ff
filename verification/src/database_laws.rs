//! What holds of the database as a whole.
use vstd::prelude::*;

verus! {

use crate::pddb::{answers, Contents, DictView};
use crate::request::{Dict, ReplyView, RequestView};

/// What a key of the database holds, if it is there.
pub open spec fn held(db: Contents, dict: Dict, key: Seq<char>) -> Option<Seq<u8>> {
    if db.contains_key(dict) && db[dict].contains_key(key) {
        Some(db[dict][key])
    } else {
        None
    }
}

/// Whether two databases hold the same, save for one key of a dictionary that both have.
pub open spec fn differ_at(a: Contents, b: Contents, dict: Dict, key: Seq<char>) -> bool {
    &&& a.contains_key(dict)
    &&& b.contains_key(dict)
    &&& a.remove(dict) == b.remove(dict)
    &&& a[dict].remove(key) == b[dict].remove(key)
}

/// Fetching a key that is there gives its first bytes, all of them where there is no limit or it is
/// not reached, and changes nothing.
pub proof fn fetching_reads_the_front(
    before: Contents,
    dict: Dict,
    key: Seq<char>,
    create_key: bool,
    hint: Option<usize>,
    limit: Option<usize>,
    reply: ReplyView,
    after: Contents,
)
    requires
        held(before, dict, key) is Some,
        answers(before, RequestView::Fetch { dict, key, create_key, hint, limit }, reply, after),
    ensures
        after == before,
        reply is Data,
        ({
            let v = before[dict][key];
            let d = reply->Data_0;
            &&& forall|i: int| 0 <= i < d.len() ==> d[i] == v[i]
            &&& match limit {
                Some(n) => d.len() == n && n <= v.len() || d.len() == v.len() && v.len() <= n,
                None => d.len() == v.len(),
            }
        }),
{
}

/// Fetching a key that is not there finds nothing and changes nothing, unless the key is to be
/// created in a dictionary that is there: then it is empty.
pub proof fn fetching_what_is_not_there(
    before: Contents,
    dict: Dict,
    key: Seq<char>,
    create_key: bool,
    hint: Option<usize>,
    limit: Option<usize>,
    reply: ReplyView,
    after: Contents,
)
    requires
        held(before, dict, key) is None,
        answers(before, RequestView::Fetch { dict, key, create_key, hint, limit }, reply, after),
    ensures
        create_key && before.contains_key(dict) ==> {
            &&& reply is Data
            &&& reply->Data_0.len() == 0
            &&& differ_at(before, after, dict, key)
            &&& held(after, dict, key) is Some
            &&& held(after, dict, key)->0.len() == 0
        },
        !(create_key && before.contains_key(dict)) ==> reply is NotFound && after == before,
{
    if create_key && before.contains_key(dict) {
        assert(after.remove(dict) =~= before.remove(dict));
        assert(after[dict].remove(key) =~= before[dict].remove(key));
    }
}

/// Measuring a key tells the length of its value. A key that is not there is created, with its
/// dictionary, and is empty.
pub proof fn measuring_tells_the_length(
    before: Contents,
    dict: Dict,
    key: Seq<char>,
    hint: Option<usize>,
    reply: ReplyView,
    after: Contents,
)
    requires
        answers(before, RequestView::Measure { dict, key, hint }, reply, after),
    ensures
        reply is Length,
        held(after, dict, key) is Some,
        reply->Length_0 == held(after, dict, key)->0.len(),
        held(before, dict, key) is Some ==> after == before,
        held(before, dict, key) is None ==> reply->Length_0 == 0,
        after.remove(dict) == before.remove(dict),
        before.contains_key(dict) ==> differ_at(before, after, dict, key),
        !before.contains_key(dict) ==> after[dict].remove(key) == DictView::empty(),
{
    assert(after.remove(dict) =~= before.remove(dict));
    if before.contains_key(dict) {
        assert(after[dict].remove(key) =~= before[dict].remove(key));
    } else {
        assert(after[dict].remove(key) =~= DictView::empty());
    }
}

/// Writing puts the bytes at the front of the value, leaves what the value held beyond them, and
/// touches nothing else. All bytes are written. The dictionary has to be there.
pub proof fn writing_starts_at_the_front(
    before: Contents,
    dict: Dict,
    key: Seq<char>,
    hint: Option<usize>,
    data: Seq<u8>,
    reply: ReplyView,
    after: Contents,
)
    requires
        answers(before, RequestView::Write { dict, key, hint, data }, reply, after),
    ensures
        !before.contains_key(dict) ==> reply is NotFound && after == before,
        before.contains_key(dict) ==> {
            let v = match held(before, dict, key) {
                Some(v) => v,
                None => Seq::empty(),
            };
            let w = after[dict][key];
            &&& reply is Written
            &&& reply->Written_0 == data.len()
            &&& differ_at(before, after, dict, key)
            &&& after[dict].contains_key(key)
            &&& w.len() >= data.len() && w.len() >= v.len()
            &&& w.len() == data.len() || w.len() == v.len()
            &&& forall|i: int| 0 <= i < data.len() ==> w[i] == data[i]
            &&& forall|i: int| data.len() <= i < v.len() ==> w[i] == v[i]
        },
{
    if before.contains_key(dict) {
        assert(after.remove(dict) =~= before.remove(dict));
        assert(after[dict].remove(key) =~= before[dict].remove(key));
    }
}

/// Deleting a key takes away this key and no other, and fails only where it is not there.
pub proof fn deleting_takes_one_key(
    before: Contents,
    dict: Dict,
    key: Seq<char>,
    reply: ReplyView,
    after: Contents,
)
    requires
        answers(before, RequestView::DeleteKey { dict, key }, reply, after),
    ensures
        held(after, dict, key) is None,
        held(before, dict, key) is None ==> reply is NotFound && after == before,
        held(before, dict, key) is Some ==> reply is Deleted && differ_at(before, after, dict, key),
{
    if held(before, dict, key) is Some {
        assert(after.remove(dict) =~= before.remove(dict));
        assert(after[dict].remove(key) =~= before[dict].remove(key));
    }
}

/// Deleting a dictionary takes away all its keys and leaves the other dictionaries alone.
pub proof fn deleting_takes_one_dictionary(
    before: Contents,
    dict: Dict,
    reply: ReplyView,
    after: Contents,
)
    requires
        answers(before, RequestView::DeleteDict { dict }, reply, after),
    ensures
        !after.contains_key(dict),
        forall|other: Dict| other != dict ==> {
            &&& #[trigger] after.contains_key(other) == before.contains_key(other)
            &&& before.contains_key(other) ==> after[other] == before[other]
        },
        reply is Deleted <==> before.contains_key(dict),
        reply is NotFound <==> !before.contains_key(dict),
{
}

/// Listing names every key of a dictionary once, and changes nothing.
pub proof fn listing_names_every_key(
    before: Contents,
    dict: Dict,
    reply: ReplyView,
    after: Contents,
)
    requires
        answers(before, RequestView::ListKeys { dict }, reply, after),
    ensures
        after == before,
        reply is Names <==> before.contains_key(dict),
        reply is NotFound <==> !before.contains_key(dict),
        before.contains_key(dict) ==> {
            let names = reply->Names_0;
            &&& forall|i: int, j: int|
                0 <= i < names.len() && 0 <= j < names.len() && names[i] == names[j] ==> i == j
            &&& forall|i: int| 0 <= i < names.len() ==> before[dict].contains_key(names[i])
            &&& forall|key: Seq<char>| #[trigger]
                before[dict].contains_key(key) ==> exists|i: int|
                    0 <= i < names.len() && names[i] == key
            &&& names.len() == before[dict].dom().len()
        },
{
    if before.contains_key(dict) {
        let names = reply->Names_0;
        assert forall|i: int| 0 <= i < names.len() implies before[dict].contains_key(names[i]) by {
            assert(names.contains(names[i]));
        }
        assert forall|key: Seq<char>| #[trigger]
            before[dict].contains_key(key) implies exists|i: int|
            0 <= i < names.len() && names[i] == key by {
            assert(names.contains(key));
        }
        assert(names.to_set() =~= before[dict].dom());
        names.unique_seq_to_set();
    }
}

} // verus!

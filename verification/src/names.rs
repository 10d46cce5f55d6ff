//! Lists of names.
use vstd::prelude::*;

verus! {

/// What a list of strings says.
pub open spec fn texts(list: Seq<String>) -> Seq<Seq<char>> {
    list.map_values(|s: String| s@)
}

/// The names other than `name`.
pub open spec fn others(names: Seq<Seq<char>>, name: Seq<char>) -> Seq<Seq<char>> {
    names.filter(|n: Seq<char>| n != name)
}

/// Dropping a name keeps the others, and makes none occur twice.
pub proof fn lemma_others(names: Seq<Seq<char>>, name: Seq<char>)
    ensures
        forall|n: Seq<char>| #[trigger]
            others(names, name).contains(n) <==> names.contains(n) && n != name,
        names.no_duplicates() ==> others(names, name).no_duplicates(),
    decreases names.len(),
{
    reveal(Seq::filter);
    let rest = others(names, name);
    if names.len() > 0 {
        let front = names.drop_last();
        let last = names.last();
        lemma_others(front, name);
        assert(names =~= front.push(last));
        assert forall|n: Seq<char>| #[trigger] rest.contains(n) <==> names.contains(n) && n
            != name by {
            lemma_push_contains(front, last, n);
            lemma_push_contains(others(front, name), last, n);
        }
        if names.no_duplicates() {
            assert(front.no_duplicates());
            assert(!front.contains(last)) by {
                if front.contains(last) {
                    let i = choose|i: int| 0 <= i < front.len() && front[i] == last;
                    assert(names[i] == names[names.len() - 1]);
                }
            }
            let kept = others(front, name);
            assert(!kept.contains(last));
            assert forall|i: int, j: int| 0 <= i < j < kept.push(last).len() implies kept.push(
                last,
            )[i] != kept.push(last)[j] by {
                assert(kept.contains(kept[i]));
            }
        }
    }
}

/// What a list with one more name contains.
pub proof fn lemma_push_contains<A>(list: Seq<A>, last: A, item: A)
    ensures
        list.push(last).contains(item) <==> list.contains(item) || item == last,
{
    let longer = list.push(last);
    if list.contains(item) {
        let i = choose|i: int| 0 <= i < list.len() && list[i] == item;
        assert(longer[i] == item);
    }
    if item == last {
        assert(longer[list.len() as int] == item);
    }
    if longer.contains(item) {
        let i = choose|i: int| 0 <= i < longer.len() && longer[i] == item;
        if i < list.len() {
            assert(list[i] == item);
        }
    }
}

/// Whether a name is among others.
pub fn contains_name(names: &Vec<String>, name: &String) -> (found: bool)
    ensures
        found == texts(names@).contains(name@),
{
    let mut i: usize = 0;
    while i < names.len()
        invariant
            i <= names@.len(),
            forall|j: int| 0 <= j < i ==> (#[trigger] names@[j])@ != name@,
        decreases names@.len() - i,
    {
        if names[i] == *name {
            assert(texts(names@)[i as int] == name@);
            return true;
        }
        i = i + 1;
    }
    proof {
        let list = texts(names@);
        assert forall|j: int| 0 <= j < list.len() implies list[j] != name@ by {
            assert(list[j] == names@[j]@);
        }
    }
    false
}

/// The names other than `name`.
pub fn without_name(names: Vec<String>, name: &String) -> (rest: Vec<String>)
    ensures
        texts(rest@) == others(texts(names@), name@),
{
    let ghost all = texts(names@);
    let ghost keep = |n: Seq<char>| n != name@;
    let mut rest: Vec<String> = Vec::new();
    let mut i: usize = 0;
    assert(all.take(0).filter(keep) =~= Seq::<Seq<char>>::empty()) by {
        reveal(Seq::filter);
    }
    assert(texts(rest@) =~= Seq::<Seq<char>>::empty());
    while i < names.len()
        invariant
            i <= names@.len(),
            all == texts(names@),
            keep == (|n: Seq<char>| n != name@),
            texts(rest@) == all.take(i as int).filter(keep),
        decreases names@.len() - i,
    {
        let ghost before = texts(rest@);
        proof {
            reveal(Seq::filter);
            assert(all.take(i + 1).drop_last() =~= all.take(i as int));
            assert(all.take(i + 1).last() == names@[i as int]@);
        }
        if names[i] != *name {
            rest.push(names[i].clone());
            assert(texts(rest@) =~= before.push(names@[i as int]@));
        }
        i = i + 1;
    }
    assert(all.take(i as int) =~= all);
    rest
}

} // verus!

//! Lists of named entries. Where a name occurs more than once, the first
//! entry is the one that is found.

use vstd::prelude::*;

verus! {

/// The position of the first of `keys` that equals `key`.
pub open spec fn index_of(keys: Seq<Seq<char>>, key: Seq<char>) -> Option<int>
    decreases keys.len(),
{
    if keys.len() == 0 {
        None
    } else if keys[0] == key {
        Some(0)
    } else {
        match index_of(keys.skip(1), key) {
            Some(i) => Some(i + 1),
            None => None,
        }
    }
}

/// `found`, counted from `by` positions further to the left.
pub open spec fn shifted(found: Option<int>, by: int) -> Option<int> {
    match found {
        Some(i) => Some(i + by),
        None => None,
    }
}

/// The names of the entries of a list, in order.
pub open spec fn names<T>(entries: Seq<(String, T)>) -> Seq<Seq<char>> {
    Seq::new(entries.len(), |i: int| entries[i].0@)
}

/// The keys of the entries of a list, in order.
pub open spec fn keys<T>(entries: Seq<(Seq<char>, T)>) -> Seq<Seq<char>> {
    Seq::new(entries.len(), |i: int| entries[i].0)
}

/// What `index_of` finds is the first position that holds `key`, and it
/// finds nothing only where no position holds it.
pub proof fn lemma_index_of(keys: Seq<Seq<char>>, key: Seq<char>)
    ensures
        match index_of(keys, key) {
            Some(i) => 0 <= i < keys.len() && keys[i] == key && forall|j: int|
                0 <= j < i ==> keys[j] != key,
            None => forall|j: int| 0 <= j < keys.len() ==> keys[j] != key,
        },
    decreases keys.len(),
{
    if keys.len() > 0 && keys[0] != key {
        let rest = keys.skip(1);
        lemma_index_of(rest, key);
        match index_of(rest, key) {
            Some(i) => {
                assert forall|j: int| 0 <= j < i + 1 implies keys[j] != key by {
                    if j > 0 {
                        assert(rest[j - 1] == keys[j]);
                    }
                }
            },
            None => {
                assert forall|j: int| 0 <= j < keys.len() implies keys[j] != key by {
                    if j > 0 {
                        assert(rest[j - 1] == keys[j]);
                    }
                }
            },
        }
    }
}

/// The first position of `keys` that holds `key`, where `at` is one and no
/// earlier position is.
pub proof fn lemma_index_of_first(keys: Seq<Seq<char>>, key: Seq<char>, at: int)
    requires
        0 <= at <= keys.len(),
        forall|j: int| 0 <= j < at ==> keys[j] != key,
    ensures
        at < keys.len() && keys[at] == key ==> index_of(keys, key) == Some(at),
        at == keys.len() ==> index_of(keys, key) is None,
{
    lemma_index_of(keys, key);
}

/// Finds the first entry named `key`.
pub fn find<T>(entries: &Vec<(String, T)>, key: &String) -> (r: Option<usize>)
    ensures
        match r {
            Some(i) => index_of(names(entries@), key@) == Some(i as int) && i < entries@.len()
                && entries@[i as int].0@ == key@,
            None => index_of(names(entries@), key@) is None,
        },
{
    let mut i: usize = 0;
    while i < entries.len()
        invariant
            i <= entries.len(),
            forall|j: int| 0 <= j < i ==> names(entries@)[j] != key@,
        decreases entries.len() - i,
    {
        if entries[i].0 == *key {
            proof {
                lemma_index_of_first(names(entries@), key@, i as int);
            }
            return Some(i);
        }
        i += 1;
    }
    proof {
        lemma_index_of_first(names(entries@), key@, i as int);
    }
    None
}

} // verus!

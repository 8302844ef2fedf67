//! Tables: lists of named values, looked up by name.

use crate::text::str_eq;
use vstd::prelude::*;

verus! {

/// The position of the first entry named `key` at or after `i`, or the length of the table.
pub open spec fn entry_from<T>(v: Seq<(String, T)>, key: Seq<char>, i: int) -> int
    decreases v.len() - i,
{
    if i < 0 || i >= v.len() {
        v.len() as int
    } else if v[i].0@ == key {
        i
    } else {
        entry_from(v, key, i + 1)
    }
}

/// The value that the table holds under `key`.
pub open spec fn entry<T>(v: Seq<(String, T)>, key: Seq<char>) -> Option<T> {
    if entry_from(v, key, 0) < v.len() {
        Some(v[entry_from(v, key, 0)].1)
    } else {
        None
    }
}

/// The value that the table holds under `key`.
pub fn find_entry<'a, T>(v: &'a Vec<(String, T)>, key: &str) -> (r: Option<&'a T>)
    ensures
        match r {
            Some(x) => entry(v@, key@) == Some(*x),
            None => entry(v@, key@) is None,
        },
{
    let mut i: usize = 0;
    while i < v.len()
        invariant
            i <= v@.len(),
            entry_from(v@, key@, 0) == entry_from(v@, key@, i as int),
        decreases v@.len() - i,
    {
        if str_eq(v[i].0.as_str(), key) {
            return Some(&v[i].1);
        }
        i += 1;
    }
    None
}

/// An entry is the value behind the first occurrence of its key; there is none where the key is nowhere.
pub proof fn law_entry<T>(v: Seq<(String, T)>, key: Seq<char>)
    ensures
        entry(v, key) is None <==> forall|i: int| 0 <= i < v.len() ==> (#[trigger] v[i]).0@ != key,
        entry(v, key) matches Some(x) ==> exists|i: int|
            0 <= i < v.len() && (#[trigger] v[i]).0@ == key && v[i].1 == x && forall|j: int|
                0 <= j < i ==> (#[trigger] v[j]).0@ != key,
{
    lemma_entry_from(v, key, 0);
}

proof fn lemma_entry_from<T>(v: Seq<(String, T)>, key: Seq<char>, i: int)
    requires
        0 <= i <= v.len(),
    ensures
        i <= entry_from(v, key, i) <= v.len(),
        entry_from(v, key, i) < v.len() ==> v[entry_from(v, key, i)].0@ == key,
        forall|k: int| i <= k < entry_from(v, key, i) ==> (#[trigger] v[k]).0@ != key,
    decreases v.len() - i,
{
    if i < v.len() && v[i].0@ != key {
        lemma_entry_from(v, key, i + 1);
    }
}

} // verus!

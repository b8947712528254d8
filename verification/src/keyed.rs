//! Ordered name-keyed entries: a `Vec<(String, V)>` in which each name
//! occurs at most once, used where a configuration maps names to values.
use vstd::prelude::*;
use crate::text::{chars_of, chars_eq};

verus! {

/// No name occurs twice in `entries`.
pub open spec fn keys_unique<V>(entries: Seq<(String, V)>) -> bool {
    forall|i: int, j: int|
        0 <= i < entries.len() && 0 <= j < entries.len() && i != j ==> #[trigger] entries[i].0@
            != #[trigger] entries[j].0@
}

/// Some entry is named `k`.
pub open spec fn has_key<V>(entries: Seq<(String, V)>, k: Seq<char>) -> bool {
    exists|i: int| 0 <= i < entries.len() && #[trigger] entries[i].0@ == k
}

/// The position of the entry named `k` (meaningful when there is one).
pub open spec fn key_pos<V>(entries: Seq<(String, V)>, k: Seq<char>) -> int {
    choose|i: int| 0 <= i < entries.len() && #[trigger] entries[i].0@ == k
}

/// The value of the entry named `k`, if any.
pub open spec fn lookup<V>(entries: Seq<(String, V)>, k: Seq<char>) -> Option<V> {
    if has_key(entries, k) {
        Some(entries[key_pos(entries, k)].1)
    } else {
        None
    }
}

/// The names of `entries`, in order.
pub open spec fn key_seq<V>(entries: Seq<(String, V)>) -> Seq<Seq<char>> {
    entries.map_values(|e: (String, V)| e.0@)
}

/// In a well-formed list, the entry at `i` is the one found by its name.
pub proof fn lemma_key_pos_unique<V>(entries: Seq<(String, V)>, i: int)
    requires
        keys_unique(entries),
        0 <= i < entries.len(),
    ensures
        has_key(entries, entries[i].0@),
        key_pos(entries, entries[i].0@) == i,
        lookup(entries, entries[i].0@) == Some(entries[i].1),
{
    let k = entries[i].0@;
    assert(entries[i].0@ == k);
    let j = key_pos(entries, k);
    assert(0 <= j < entries.len() && entries[j].0@ == k);
}

/// Replacing the value at `i` keeps every other name's value and the set of names.
pub proof fn lemma_update_lookup<V>(entries: Seq<(String, V)>, i: int, e: (String, V))
    requires
        keys_unique(entries),
        0 <= i < entries.len(),
        e.0@ == entries[i].0@,
    ensures
        keys_unique(entries.update(i, e)),
        forall|k: Seq<char>|
            #![trigger lookup(entries.update(i, e), k)]
            lookup(entries.update(i, e), k) == if k == e.0@ {
                Some(e.1)
            } else {
                lookup(entries, k)
            },
{
    let u = entries.update(i, e);
    assert(forall|j: int| 0 <= j < u.len() ==> #[trigger] u[j].0@ == entries[j].0@);
    lemma_key_pos_unique(u, i);
    assert forall|k: Seq<char>| #[trigger] lookup(u, k) == if k == e.0@ {
        Some(e.1)
    } else {
        lookup(entries, k)
    } by {
        if k != e.0@ {
            if has_key(entries, k) {
                let j = key_pos(entries, k);
                assert(u[j].0@ == k);
                lemma_key_pos_unique(u, j);
                lemma_key_pos_unique(entries, j);
            } else {
                if has_key(u, k) {
                    let j = key_pos(u, k);
                    assert(entries[j].0@ == k);
                }
            }
        }
    }
}

/// Appending a new name keeps every other name's value.
pub proof fn lemma_push_lookup<V>(entries: Seq<(String, V)>, e: (String, V))
    requires
        keys_unique(entries),
        !has_key(entries, e.0@),
    ensures
        keys_unique(entries.push(e)),
        forall|k: Seq<char>|
            #![trigger lookup(entries.push(e), k)]
            lookup(entries.push(e), k) == if k == e.0@ {
                Some(e.1)
            } else {
                lookup(entries, k)
            },
{
    let u = entries.push(e);
    assert forall|i: int, j: int|
        0 <= i < u.len() && 0 <= j < u.len() && i != j implies #[trigger] u[i].0@
        != #[trigger] u[j].0@ by {
        if i == entries.len() {
            assert(entries[j].0@ == u[j].0@);
        } else if j == entries.len() {
            assert(entries[i].0@ == u[i].0@);
        } else {
            assert(entries[i].0@ == u[i].0@);
            assert(entries[j].0@ == u[j].0@);
        }
    }
    lemma_key_pos_unique(u, entries.len() as int);
    assert forall|k: Seq<char>| #[trigger] lookup(u, k) == if k == e.0@ {
        Some(e.1)
    } else {
        lookup(entries, k)
    } by {
        if k != e.0@ {
            if has_key(entries, k) {
                let j = key_pos(entries, k);
                assert(u[j].0@ == k);
                lemma_key_pos_unique(u, j);
                lemma_key_pos_unique(entries, j);
            } else {
                if has_key(u, k) {
                    let j = key_pos(u, k);
                    if j < entries.len() {
                        assert(entries[j].0@ == k);
                    }
                }
            }
        }
    }
}

/// The position of the entry named `key`, if any.
pub fn find_key<V>(entries: &Vec<(String, V)>, key: &str) -> (r: Option<usize>)
    requires
        keys_unique(entries@),
    ensures
        match r {
            Some(i) => i < entries@.len() && entries@[i as int].0@ == key@ && key_pos(entries@, key@)
                == i as int && has_key(entries@, key@),
            None => !has_key(entries@, key@),
        },
{
    let kv = chars_of(key);
    let mut i: usize = 0;
    while i < entries.len()
        invariant
            i <= entries@.len(),
            kv@ == key@,
            keys_unique(entries@),
            forall|j: int| 0 <= j < i ==> #[trigger] entries@[j].0@ != key@,
        decreases entries.len() - i,
    {
        let nv = chars_of(entries[i].0.as_str());
        if chars_eq(&nv, &kv) {
            proof {
                lemma_key_pos_unique(entries@, i as int);
            }
            return Some(i);
        }
        i = i + 1;
    }
    None
}

} // verus!

//! Association lists keyed by strings: the representation behind the
//! plugin key-value store and the plugin registry.
use vstd::prelude::*;

use crate::text::str_eq;

verus! {

/// Some element of `s` has the key `k`.
pub open spec fn has_key<V>(s: Seq<(String, V)>, k: Seq<char>) -> bool {
    exists|i: int| 0 <= i < s.len() && (#[trigger] s[i]).0@ == k
}

/// No two elements of `s` share a key.
pub open spec fn distinct_keys<V>(s: Seq<(String, V)>) -> bool {
    forall|i: int, j: int|
        0 <= i < s.len() && 0 <= j < s.len() && i != j ==> (#[trigger] s[i]).0@ != (#[trigger] s[j]).0@
}

/// The position of an element with key `k` (meaningful when `has_key(s, k)`).
pub open spec fn key_index<V>(s: Seq<(String, V)>, k: Seq<char>) -> int {
    choose|i: int| 0 <= i < s.len() && (#[trigger] s[i]).0@ == k
}

/// The map from keys to values that a list of key/value pairs stands for.
pub open spec fn entries_view(s: Seq<(String, Vec<u8>)>) -> Map<Seq<char>, Seq<u8>> {
    Map::new(|k: Seq<char>| has_key(s, k), |k: Seq<char>| s[key_index(s, k)].1@)
}

/// The nested map that a list of named scopes stands for.
pub open spec fn scopes_view(s: Seq<(String, Vec<(String, Vec<u8>)>)>) -> Map<
    Seq<char>,
    Map<Seq<char>, Seq<u8>>,
> {
    Map::new(|k: Seq<char>| has_key(s, k), |k: Seq<char>| entries_view(s[key_index(s, k)].1@))
}

/// Every scope has distinct names, and every scope's entries have distinct keys.
pub open spec fn well_keyed(s: Seq<(String, Vec<(String, Vec<u8>)>)>) -> bool {
    &&& distinct_keys(s)
    &&& forall|i: int| 0 <= i < s.len() ==> distinct_keys((#[trigger] s[i]).1@)
}

/// In a list with distinct keys, the element found under a key is the one at
/// its position.
pub proof fn lemma_key_index_unique<V>(s: Seq<(String, V)>, i: int)
    requires
        distinct_keys(s),
        0 <= i < s.len(),
    ensures
        has_key(s, s[i].0@),
        key_index(s, s[i].0@) == i,
{
    assert(has_key(s, s[i].0@));
    let j = key_index(s, s[i].0@);
    assert(0 <= j < s.len() && s[j].0@ == s[i].0@);
}

/// Adding an element under a new key keeps keys distinct and leaves the
/// other keys where they were.
pub proof fn lemma_push_fresh<V>(s: Seq<(String, V)>, e: (String, V))
    requires
        distinct_keys(s),
        !has_key(s, e.0@),
    ensures
        distinct_keys(s.push(e)),
        forall|k: Seq<char>| has_key(s.push(e), k) <==> (has_key(s, k) || k == e.0@),
        forall|k: Seq<char>| has_key(s, k) ==> key_index(s.push(e), k) == key_index(s, k),
        key_index(s.push(e), e.0@) == s.len(),
{
    let t = s.push(e);
    assert forall|i: int, j: int|
        0 <= i < t.len() && 0 <= j < t.len() && i != j implies (#[trigger] t[i]).0@ != (
        #[trigger] t[j]).0@ by {
        if i < s.len() && j < s.len() {
            assert(t[i] == s[i] && t[j] == s[j]);
        } else if i < s.len() {
            assert(t[i] == s[i]);
        } else {
            assert(t[j] == s[j]);
        }
    }
    assert forall|k: Seq<char>| has_key(t, k) <==> (has_key(s, k) || k == e.0@) by {
        if has_key(t, k) {
            let i = choose|i: int| 0 <= i < t.len() && (#[trigger] t[i]).0@ == k;
            if i < s.len() {
                assert(t[i] == s[i]);
            }
        }
        if has_key(s, k) {
            let i = choose|i: int| 0 <= i < s.len() && (#[trigger] s[i]).0@ == k;
            assert(t[i] == s[i]);
        }
        if k == e.0@ {
            assert(t[s.len() as int] == e);
        }
    }
    assert forall|k: Seq<char>| has_key(s, k) implies key_index(t, k) == key_index(s, k) by {
        let i = key_index(s, k);
        assert(t[i] == s[i]);
        lemma_key_index_unique(t, i);
    }
    assert(t[s.len() as int] == e);
    lemma_key_index_unique(t, s.len() as int);
}

/// Replacing an element by one with the same key keeps keys distinct and
/// every key where it was.
pub proof fn lemma_update_same_key<V>(s: Seq<(String, V)>, j: int, e: (String, V))
    requires
        distinct_keys(s),
        0 <= j < s.len(),
        s[j].0@ == e.0@,
    ensures
        distinct_keys(s.update(j, e)),
        forall|k: Seq<char>| has_key(s.update(j, e), k) <==> has_key(s, k),
        forall|k: Seq<char>| has_key(s, k) ==> key_index(s.update(j, e), k) == key_index(s, k),
{
    let t = s.update(j, e);
    assert forall|a: int, b: int|
        0 <= a < t.len() && 0 <= b < t.len() && a != b implies (#[trigger] t[a]).0@ != (
        #[trigger] t[b]).0@ by {
        assert(s[a].0@ != s[b].0@);
    }
    assert forall|k: Seq<char>| has_key(t, k) <==> has_key(s, k) by {
        if has_key(t, k) {
            let i = choose|i: int| 0 <= i < t.len() && (#[trigger] t[i]).0@ == k;
            assert(s[i].0@ == k);
        }
        if has_key(s, k) {
            let i = choose|i: int| 0 <= i < s.len() && (#[trigger] s[i]).0@ == k;
            assert(t[i].0@ == k);
        }
    }
    assert forall|k: Seq<char>| has_key(s, k) implies key_index(t, k) == key_index(s, k) by {
        let i = key_index(s, k);
        assert(t[i].0@ == s[i].0@);
        lemma_key_index_unique(t, i);
    }
}

/// Finds the position of the element whose key is `k`.
pub fn find_key<V>(s: &Vec<(String, V)>, k: &str) -> (r: Option<usize>)
    ensures
        match r {
            Some(i) => i < s@.len() && s@[i as int].0@ == k@,
            None => !has_key(s@, k@),
        },
{
    let n = s.len();
    let mut i: usize = 0;
    while i < n
        invariant
            n == s@.len(),
            0 <= i <= n,
            forall|j: int| 0 <= j < i ==> (#[trigger] s@[j]).0@ != k@,
        decreases n - i,
    {
        if str_eq(s[i].0.as_str(), k) {
            return Some(i);
        }
        i = i + 1;
    }
    None
}

} // verus!

//! The plugins' key-value store: byte values filed under a scope (one per
//! plugin) and a key, kept in memory and written to and read from a JSON file.
use vstd::prelude::*;

use crate::json::{kv_json_contents, kv_json_text, parse_kv_json, write_kv_json};
use crate::keyed::{
    distinct_keys, entries_view, find_key, has_key, key_index, lemma_key_index_unique,
    lemma_push_fresh, lemma_update_same_key, scopes_view, well_keyed,
};

verus! {

/// The contents of a store: scope → key → value.
pub type KvContents = Map<Seq<char>, Map<Seq<char>, Seq<u8>>>;

/// The value filed under `scope` and `key`, if any.
pub open spec fn kv_lookup(m: KvContents, scope: Seq<char>, key: Seq<char>) -> Option<Seq<u8>> {
    if m.contains_key(scope) && m[scope].contains_key(key) {
        Some(m[scope][key])
    } else {
        None
    }
}

/// The contents after filing `value` under `scope` and `key`; the scope is
/// created when it is missing, and an earlier value under the key is replaced.
pub open spec fn kv_store(m: KvContents, scope: Seq<char>, key: Seq<char>, value: Seq<u8>) -> KvContents {
    let entries = if m.contains_key(scope) {
        m[scope]
    } else {
        Map::empty()
    };
    m.insert(scope, entries.insert(key, value))
}

/// The data directory when `DATA_DIR` is not set.
pub open spec fn default_data_dir() -> Seq<char> {
    "./data"@
}

/// The default location of the store's file, used when `KV_STORE_PATH` is
/// not set: under `plugin-kv` in the data directory.
pub open spec fn default_kv_path(data_dir_var: Option<String>) -> Seq<char> {
    let dir = match data_dir_var {
        Some(d) => d@,
        None => default_data_dir(),
    };
    dir + "/plugin-kv/kv-store.json"@
}

/// A value filed under a scope and key is what a later `get` of that scope
/// and key returns.
pub proof fn lemma_get_after_set(m: KvContents, scope: Seq<char>, key: Seq<char>, value: Seq<u8>)
    ensures
        kv_lookup(kv_store(m, scope, key, value), scope, key) == Some(value),
{
}

/// Filing a value leaves every other scope and key as it was.
pub proof fn lemma_set_leaves_others(
    m: KvContents,
    scope: Seq<char>,
    key: Seq<char>,
    value: Seq<u8>,
    other_scope: Seq<char>,
    other_key: Seq<char>,
)
    requires
        other_scope != scope || other_key != key,
    ensures
        kv_lookup(kv_store(m, scope, key, value), other_scope, other_key) == kv_lookup(
            m,
            other_scope,
            other_key,
        ),
{
}

/// Filing two values under the same scope and key keeps only the second.
pub proof fn lemma_set_overwrites(
    m: KvContents,
    scope: Seq<char>,
    key: Seq<char>,
    first: Seq<u8>,
    second: Seq<u8>,
)
    ensures
        kv_store(kv_store(m, scope, key, first), scope, key, second) == kv_store(
            m,
            scope,
            key,
            second,
        ),
{
    let a = kv_store(kv_store(m, scope, key, first), scope, key, second);
    let b = kv_store(m, scope, key, second);
    assert(a[scope] =~= b[scope]);
    assert(a =~= b);
}

/// Values filed under different scopes or keys can be filed in either order.
pub proof fn lemma_set_commutes(
    m: KvContents,
    s1: Seq<char>,
    k1: Seq<char>,
    v1: Seq<u8>,
    s2: Seq<char>,
    k2: Seq<char>,
    v2: Seq<u8>,
)
    requires
        s1 != s2 || k1 != k2,
    ensures
        kv_store(kv_store(m, s1, k1, v1), s2, k2, v2) == kv_store(kv_store(m, s2, k2, v2), s1, k1, v1),
{
    let a = kv_store(kv_store(m, s1, k1, v1), s2, k2, v2);
    let b = kv_store(kv_store(m, s2, k2, v2), s1, k1, v1);
    assert(a[s1] =~= b[s1]);
    assert(a[s2] =~= b[s2]);
    assert(a =~= b);
}

/// The contents after filing each of `ops` (scope, key, value) in turn.
pub open spec fn kv_store_each(m: KvContents, ops: Seq<(Seq<char>, Seq<char>, Seq<u8>)>) -> KvContents
    decreases ops.len(),
{
    if ops.len() == 0 {
        m
    } else {
        let op = ops.last();
        kv_store(kv_store_each(m, ops.drop_last()), op.0, op.1, op.2)
    }
}

/// After a run of `set`s, `get` of a scope and key gives the value of the
/// last `set` of that scope and key, and what the store held before where
/// there was none.
pub proof fn lemma_get_after_sets(
    m: KvContents,
    ops: Seq<(Seq<char>, Seq<char>, Seq<u8>)>,
    scope: Seq<char>,
    key: Seq<char>,
)
    ensures
        (forall|j: int| 0 <= j < ops.len() ==> !((#[trigger] ops[j]).0 == scope && ops[j].1 == key))
            ==> kv_lookup(kv_store_each(m, ops), scope, key) == kv_lookup(m, scope, key),
        forall|j: int|
            0 <= j < ops.len() && (#[trigger] ops[j]).0 == scope && ops[j].1 == key && (forall|l: int|
                j < l < ops.len() ==> !(ops[l].0 == scope && ops[l].1 == key)) ==> kv_lookup(
                kv_store_each(m, ops),
                scope,
                key,
            ) == Some(ops[j].2),
    decreases ops.len(),
{
    if ops.len() > 0 {
        let rest = ops.drop_last();
        let last = ops.last();
        lemma_get_after_sets(m, rest, scope, key);
        let before = kv_store_each(m, rest);
        if last.0 == scope && last.1 == key {
            lemma_get_after_set(before, scope, key, last.2);
        } else {
            lemma_set_leaves_others(before, last.0, last.1, last.2, scope, key);
        }
        assert forall|j: int|
            0 <= j < ops.len() && (#[trigger] ops[j]).0 == scope && ops[j].1 == key && (forall|l: int|
                j < l < ops.len() ==> !(ops[l].0 == scope && ops[l].1 == key)) implies kv_lookup(
            kv_store_each(m, ops),
            scope,
            key,
        ) == Some(ops[j].2) by {
            if j < ops.len() - 1 {
                assert(rest[j] == ops[j]);
                assert(!(ops[ops.len() - 1].0 == scope && ops[ops.len() - 1].1 == key));
                assert forall|l: int| j < l < rest.len() implies !(rest[l].0 == scope && rest[l].1
                    == key) by {
                    assert(rest[l] == ops[l]);
                }
            }
        }
        if forall|j: int| 0 <= j < ops.len() ==> !((#[trigger] ops[j]).0 == scope && ops[j].1 == key) {
            assert forall|j: int| 0 <= j < rest.len() implies !((#[trigger] rest[j]).0 == scope
                && rest[j].1 == key) by {
                assert(rest[j] == ops[j]);
            }
            assert(!(ops[ops.len() - 1].0 == scope && ops[ops.len() - 1].1 == key));
        }
    }
}

/// Why a store could not be loaded.
#[derive(Debug, PartialEq, Eq, Structural)]
pub enum KvError {
    /// The store's file is not a JSON object of objects of byte arrays.
    InvalidJson,
}

/// A key-value store for plugins, kept at a file path.
pub struct KvStore {
    path: String,
    scopes: Vec<(String, Vec<(String, Vec<u8>)>)>,
}

impl View for KvStore {
    type V = KvContents;

    closed spec fn view(&self) -> KvContents {
        scopes_view(self.scopes@)
    }
}

/// The path of the store's file: the value of `KV_STORE_PATH` where it is
/// set, else `plugin-kv/kv-store.json` under the data directory, which is
/// the value of `DATA_DIR` where it is set, else `./data` (the caller reads
/// the environment).
pub fn kv_path(kv_store_path_var: Option<String>, data_dir_var: Option<String>) -> (r: String)
    ensures
        match kv_store_path_var {
            Some(p) => r@ == p@,
            None => r@ == default_kv_path(data_dir_var),
        },
{
    match kv_store_path_var {
        Some(p) => p,
        None => {
            let mut dir = match data_dir_var {
                Some(d) => d,
                None => String::from_str("./data"),
            };
            dir.append("/plugin-kv/kv-store.json");
            dir
        },
    }
}

impl KvStore {
    #[verifier::type_invariant]
    spec fn well_formed(self) -> bool {
        well_keyed(self.scopes@)
    }

    /// The path of the file that the store is saved to.
    pub closed spec fn path_view(self) -> Seq<char> {
        self.path@
    }

    /// An empty store at the path that `kv_path` gives for the values of
    /// `KV_STORE_PATH` and `DATA_DIR` (the caller reads the environment).
    pub fn new(kv_store_path_var: Option<String>, data_dir_var: Option<String>) -> (r: KvStore)
        ensures
            r@ == KvContents::empty(),
            match kv_store_path_var {
                Some(p) => r.path_view() == p@,
                None => r.path_view() == default_kv_path(data_dir_var),
            },
    {
        Self::with_path(kv_path(kv_store_path_var, data_dir_var))
    }

    /// An empty store at `path`.
    pub fn with_path(path: String) -> (r: KvStore)
        ensures
            r@ == KvContents::empty(),
            r.path_view() == path@,
    {
        let r = KvStore { path, scopes: Vec::new() };
        assert(r@ =~= KvContents::empty());
        r
    }

    /// The path of the file that the store is saved to.
    pub fn path(&self) -> (r: &str)
        ensures
            r@ == self.path_view(),
    {
        self.path.as_str()
    }

    /// The value filed under `scope` and `key`.
    pub fn get(&self, scope: &str, key: &str) -> (r: Option<Vec<u8>>)
        ensures
            match r {
                Some(v) => kv_lookup(self@, scope@, key@) == Some(v@),
                None => kv_lookup(self@, scope@, key@) is None,
            },
    {
        proof {
            use_type_invariant(self);
        }
        match find_key(&self.scopes, scope) {
            None => None,
            Some(i) => {
                proof {
                    lemma_key_index_unique(self.scopes@, i as int);
                }
                let entries = &self.scopes[i].1;
                match find_key(entries, key) {
                    None => None,
                    Some(j) => {
                        proof {
                            lemma_key_index_unique(entries@, j as int);
                        }
                        let v = entries[j].1.clone();
                        assert(v@ =~= entries@[j as int].1@);
                        Some(v)
                    },
                }
            },
        }
    }

    /// Files `value` under `scope` and `key`, replacing an earlier value.
    pub fn set(&mut self, scope: String, key: String, value: Vec<u8>)
        ensures
            final(self)@ == kv_store(old(self)@, scope@, key@, value@),
            final(self).path_view() == old(self).path_view(),
    {
        proof {
            use_type_invariant(&*self);
        }
        let mut scopes: Vec<(String, Vec<(String, Vec<u8>)>)> = Vec::new();
        std::mem::swap(&mut scopes, &mut self.scopes);
        let ghost old_scopes = scopes@;
        assert(scopes_view(old_scopes) == old(self)@);
        match find_key(&scopes, scope.as_str()) {
            None => {
                let mut entries: Vec<(String, Vec<u8>)> = Vec::new();
                let ghost empty = entries@;
                proof {
                    assert(distinct_keys(empty));
                    assert(!has_key(empty, key@));
                    lemma_push_fresh(empty, (key, value));
                    lemma_entries_view_push(empty, (key, value));
                    assert(entries_view(empty) =~= Map::empty());
                }
                entries.push((key, value));
                proof {
                    lemma_push_fresh(old_scopes, (scope, entries));
                    lemma_scopes_view_push(old_scopes, (scope, entries));
                    lemma_well_keyed_push(old_scopes, (scope, entries));
                }
                scopes.push((scope, entries));
            },
            Some(i) => {
                proof {
                    lemma_key_index_unique(old_scopes, i as int);
                }
                let ghost old_entries = scopes@[i as int].1@;
                let (name, mut entries) = scopes.remove(i);
                assert(entries@ == old_entries);
                assert(name@ == scope@);
                match find_key(&entries, key.as_str()) {
                    None => {
                        proof {
                            lemma_push_fresh(old_entries, (key, value));
                            lemma_entries_view_push(old_entries, (key, value));
                        }
                        entries.push((key, value));
                    },
                    Some(j) => {
                        proof {
                            lemma_update_same_key(old_entries, j as int, (key, value));
                            lemma_entries_view_update(old_entries, j as int, (key, value));
                        }
                        entries.set(j, (key, value));
                    },
                }
                let ghost new_entries = entries@;
                assert(entries_view(new_entries) == entries_view(old_entries).insert(key@, value@));
                scopes.insert(i, (name, entries));
                proof {
                    let e = (name, entries);
                    assert(scopes@ =~= old_scopes.update(i as int, e));
                    lemma_update_same_key(old_scopes, i as int, e);
                    lemma_scopes_view_update(old_scopes, i as int, e);
                    lemma_well_keyed_update(old_scopes, i as int, e);
                }
            },
        }
        self.scopes = scopes;
        assert(self@ =~= kv_store(old(self)@, scope@, key@, value@));
    }

    /// Loads a store kept at `path`: `stored` is the file's contents, or
    /// `None` where there is no such file (the caller reads the file). A
    /// missing file gives an empty store.
    pub fn load_or_default(path: String, stored: Option<Vec<u8>>) -> (r: Result<KvStore, KvError>)
        ensures
            match stored {
                None => r matches Ok(s) && s@ == KvContents::empty() && s.path_view() == path@,
                Some(bytes) => match kv_json_contents(bytes@) {
                    Some(m) => r matches Ok(s) && s@ == m && s.path_view() == path@,
                    None => r == Err::<KvStore, KvError>(KvError::InvalidJson),
                },
            },
    {
        match stored {
            None => Ok(Self::with_path(path)),
            Some(bytes) => match parse_kv_json(bytes.as_slice()) {
                Ok(scopes) => Ok(KvStore { path, scopes }),
                Err(_) => Err(KvError::InvalidJson),
            },
        }
    }

    /// The bytes that `save` writes: the contents as pretty-printed JSON,
    /// which read back as the same contents.
    pub fn to_json(&self) -> (r: Vec<u8>)
        ensures
            r@ == kv_json_text(self@),
            kv_json_contents(r@) == Some(self@),
    {
        proof {
            use_type_invariant(self);
        }
        match write_kv_json(&self.scopes) {
            Ok(bytes) => bytes,
            Err(_) => {
                assert(false);
                Vec::new()
            },
        }
    }
}

proof fn lemma_entries_view_push(s: Seq<(String, Vec<u8>)>, e: (String, Vec<u8>))
    requires
        distinct_keys(s),
        !has_key(s, e.0@),
    ensures
        entries_view(s.push(e)) == entries_view(s).insert(e.0@, e.1@),
{
    lemma_push_fresh(s, e);
    let t = s.push(e);
    assert forall|k: Seq<char>| has_key(s, k) implies t[key_index(t, k)] == s[key_index(s, k)] by {
    }
    assert(entries_view(t) =~= entries_view(s).insert(e.0@, e.1@));
}

proof fn lemma_entries_view_update(s: Seq<(String, Vec<u8>)>, j: int, e: (String, Vec<u8>))
    requires
        distinct_keys(s),
        0 <= j < s.len(),
        s[j].0@ == e.0@,
    ensures
        entries_view(s.update(j, e)) == entries_view(s).insert(e.0@, e.1@),
{
    lemma_update_same_key(s, j, e);
    lemma_key_index_unique(s, j);
    let t = s.update(j, e);
    assert forall|k: Seq<char>| has_key(s, k) && k != e.0@ implies t[key_index(t, k)] == s[key_index(s, k)] by {
        let i = key_index(s, k);
        assert(i != j);
    }
    assert(entries_view(t) =~= entries_view(s).insert(e.0@, e.1@));
}

proof fn lemma_scopes_view_push(
    s: Seq<(String, Vec<(String, Vec<u8>)>)>,
    e: (String, Vec<(String, Vec<u8>)>),
)
    requires
        distinct_keys(s),
        !has_key(s, e.0@),
    ensures
        scopes_view(s.push(e)) == scopes_view(s).insert(e.0@, entries_view(e.1@)),
{
    lemma_push_fresh(s, e);
    let t = s.push(e);
    assert forall|k: Seq<char>| has_key(s, k) implies t[key_index(t, k)] == s[key_index(s, k)] by {
    }
    assert(scopes_view(t) =~= scopes_view(s).insert(e.0@, entries_view(e.1@)));
}

proof fn lemma_scopes_view_update(
    s: Seq<(String, Vec<(String, Vec<u8>)>)>,
    j: int,
    e: (String, Vec<(String, Vec<u8>)>),
)
    requires
        distinct_keys(s),
        0 <= j < s.len(),
        s[j].0@ == e.0@,
    ensures
        scopes_view(s.update(j, e)) == scopes_view(s).insert(e.0@, entries_view(e.1@)),
{
    lemma_update_same_key(s, j, e);
    lemma_key_index_unique(s, j);
    let t = s.update(j, e);
    assert forall|k: Seq<char>| has_key(s, k) && k != e.0@ implies t[key_index(t, k)] == s[key_index(s, k)] by {
        let i = key_index(s, k);
        assert(i != j);
    }
    assert(scopes_view(t) =~= scopes_view(s).insert(e.0@, entries_view(e.1@)));
}

proof fn lemma_well_keyed_push(
    s: Seq<(String, Vec<(String, Vec<u8>)>)>,
    e: (String, Vec<(String, Vec<u8>)>),
)
    requires
        well_keyed(s),
        !has_key(s, e.0@),
        distinct_keys(e.1@),
    ensures
        well_keyed(s.push(e)),
{
    lemma_push_fresh(s, e);
    let t = s.push(e);
    assert forall|i: int| 0 <= i < t.len() implies distinct_keys((#[trigger] t[i]).1@) by {
        if i < s.len() {
            assert(t[i] == s[i]);
        }
    }
}

proof fn lemma_well_keyed_update(
    s: Seq<(String, Vec<(String, Vec<u8>)>)>,
    j: int,
    e: (String, Vec<(String, Vec<u8>)>),
)
    requires
        well_keyed(s),
        0 <= j < s.len(),
        s[j].0@ == e.0@,
        distinct_keys(e.1@),
    ensures
        well_keyed(s.update(j, e)),
{
    lemma_update_same_key(s, j, e);
    let t = s.update(j, e);
    assert forall|i: int| 0 <= i < t.len() implies distinct_keys((#[trigger] t[i]).1@) by {
        if i != j {
            assert(t[i] == s[i]);
        }
    }
}

} // verus!

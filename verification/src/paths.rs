//! File names of plugins: stems and extensions, as `std::path::Path`
//! reads them from a file name.
use vstd::prelude::*;

use crate::text::str_eq;
use vstd::string::StrSliceExecFns;

verus! {

/// The position of the last `c` in `s`, or -1.
pub open spec fn last_index_of(s: Seq<char>, c: char) -> int
    decreases s.len(),
{
    if s.len() == 0 {
        -1
    } else if s.last() == c {
        s.len() - 1
    } else {
        last_index_of(s.drop_last(), c)
    }
}

/// The stem of a file name: the name itself when it is `..`, has no `.`,
/// or has its only `.` in front; otherwise the part before the last `.`.
pub open spec fn file_stem_of(name: Seq<char>) -> Seq<char> {
    let i = last_index_of(name, '.');
    if name == seq!['.', '.'] || i <= 0 {
        name
    } else {
        name.take(i)
    }
}

/// The extension of a file name: none when the name is `..`, has no `.`,
/// or has its only `.` in front; otherwise the part after the last `.`.
pub open spec fn file_extension_of(name: Seq<char>) -> Option<Seq<char>> {
    let i = last_index_of(name, '.');
    if name == seq!['.', '.'] || i <= 0 {
        None
    } else {
        Some(name.skip(i + 1))
    }
}

pub proof fn lemma_last_index_bounds(s: Seq<char>, c: char)
    ensures
        -1 <= last_index_of(s, c) < s.len(),
        last_index_of(s, c) >= 0 ==> s[last_index_of(s, c)] == c,
    decreases s.len(),
{
    if s.len() > 0 && s.last() != c {
        lemma_last_index_bounds(s.drop_last(), c);
    }
}

/// `last_index_of` is the position of a `c` with none after it, or -1 where
/// there is none.
pub proof fn lemma_last_index_is(s: Seq<char>, c: char, k: int)
    requires
        -1 <= k < s.len(),
        k >= 0 ==> s[k] == c,
        forall|j: int| k < j < s.len() ==> s[j] != c,
    ensures
        last_index_of(s, c) == k,
    decreases s.len(),
{
    if s.len() > 0 && s.last() != c {
        let t = s.drop_last();
        assert forall|j: int| k < j < t.len() implies t[j] != c by {
            assert(t[j] == s[j]);
        }
        if k >= 0 && k == s.len() - 1 {
            assert(s[k] == s.last());
        }
        if k >= 0 {
            assert(t[k] == s[k]);
        }
        lemma_last_index_is(t, c, k);
    }
}

/// Splits a text at its last `.` into the part before and the part after;
/// there is no split where the text holds no `.`.
fn split_at_last_dot(s: &str) -> (r: Option<(&str, &str)>)
    ensures
        match r {
            None => last_index_of(s@, '.') == -1,
            Some((before, after)) => last_index_of(s@, '.') >= 0 && before@ == s@.take(
                last_index_of(s@, '.'),
            ) && after@ == s@.skip(last_index_of(s@, '.') + 1),
        },
{
    let n = s.unicode_len();
    let mut i = n;
    while i > 0
        invariant
            i <= n,
            n == s@.len(),
            forall|j: int| i <= j < n ==> s@[j] != '.',
        decreases i,
    {
        if s.get_char(i - 1) == '.' {
            proof {
                lemma_last_index_is(s@, '.', i - 1);
            }
            let before = s.substring_char(0, i - 1);
            let after = s.substring_char(i, n);
            return Some((before, after));
        }
        i = i - 1;
    }
    proof {
        lemma_last_index_is(s@, '.', -1);
    }
    None
}

/// A single file name: not empty, not `.` or `..`, and without `/`, `\`
/// or `:`.
pub open spec fn is_single_name(n: Seq<char>) -> bool {
    &&& n.len() > 0
    &&& n != seq!['.']
    &&& n != seq!['.', '.']
    &&& !n.contains('/')
    &&& !n.contains('\\')
    &&& !n.contains(':')
}

/// The text after the last `/` of a path (all of it where it has none).
pub open spec fn last_segment(path: Seq<char>) -> Seq<char> {
    path.skip(last_index_of(path, '/') + 1)
}

/// A path whose last component every platform reads alike: it holds no `\`
/// or `:`, does not begin with `//`, and its text after the last `/` is a
/// single file name.
pub open spec fn has_plain_file_name(path: Seq<char>) -> bool {
    &&& !path.contains('\\')
    &&& !path.contains(':')
    &&& !(path.len() >= 2 && path[0] == '/' && path[1] == '/')
    &&& is_single_name(last_segment(path))
}

/// A path that has no file name on any platform: it is empty, or its text
/// after the last `/` is `..`.
pub open spec fn lacks_file_name(path: Seq<char>) -> bool {
    path.len() == 0 || last_segment(path) == seq!['.', '.']
}

/// `n` occurs in `s`.
pub open spec fn is_part_of(n: Seq<char>, s: Seq<char>) -> bool {
    exists|i: int| 0 <= i && i + n.len() <= s.len() && #[trigger] s.subrange(i, i + n.len()) == n
}

/// Calls `std::path::Path::file_name` and reads the name as text. Claimed,
/// as its documentation says (the final component of the path): a name
/// given is a non-empty part of the path without `/`; and where the path's
/// last component is the same under every platform's path syntax (see
/// `has_plain_file_name`), it is the text after the last `/`; an empty path,
/// or one that ends in `..`, has no file name. Which component is last for
/// other paths depends on the platform and is not claimed.
#[verifier::external_body]
fn path_file_name(path: &str) -> (r: Option<String>)
    ensures
        match r {
            Some(n) => n@.len() > 0 && !n@.contains('/') && is_part_of(n@, path@) && (
            has_plain_file_name(path@) ==> n@ == last_segment(path@)) && !lacks_file_name(path@),
            None => !has_plain_file_name(path@),
        },
{
    std::path::Path::new(path).file_name().and_then(|n| n.to_str()).map(|n| n.to_string())
}

/// The stem of a file name.
pub fn file_stem(name: &str) -> (r: String)
    ensures
        r@ == file_stem_of(name@),
{
    proof {
        reveal_strlit("..");
        assert(".."@ =~= seq!['.', '.']);
        lemma_last_index_bounds(name@, '.');
    }
    if str_eq(name, "..") {
        return name.to_owned();
    }
    match split_at_last_dot(name) {
        None => name.to_owned(),
        Some((before, _after)) => {
            if before.is_empty() {
                name.to_owned()
            } else {
                before.to_owned()
            }
        },
    }
}

/// The extension of a file name.
pub fn file_extension(name: &str) -> (r: Option<String>)
    ensures
        match r {
            Some(e) => file_extension_of(name@) == Some(e@),
            None => file_extension_of(name@) is None,
        },
{
    proof {
        reveal_strlit("..");
        assert(".."@ =~= seq!['.', '.']);
        lemma_last_index_bounds(name@, '.');
    }
    if str_eq(name, "..") {
        return None;
    }
    match split_at_last_dot(name) {
        None => None,
        Some((before, after)) => {
            if before.is_empty() {
                None
            } else {
                Some(after.to_owned())
            }
        },
    }
}

/// The name a plugin is known by: the stem of its file's name, or `unknown`
/// where the path has no file name.
pub fn plugin_name(path: &str) -> (r: String)
    ensures
        has_plain_file_name(path@) ==> r@ == file_stem_of(last_segment(path@)),
        lacks_file_name(path@) ==> r@ == "unknown"@,
        r@ == "unknown"@ || exists|name: Seq<char>|
            name.len() > 0 && !name.contains('/') && is_part_of(name, path@) && r@ == file_stem_of(
                name,
            ),
{
    match path_file_name(path) {
        Some(name) => file_stem(name.as_str()),
        None => String::from_str("unknown"),
    }
}

} // verus!

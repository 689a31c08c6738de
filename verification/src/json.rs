//! The JSON boundary: what serde_json reads from, and writes for, the
//! key-value store.
use std::collections::BTreeMap;
use vstd::prelude::*;

use crate::keyed::{scopes_view, well_keyed};

verus! {

/// serde_json's error type, carried through unopened.
#[verifier::external_type_specification]
#[verifier::external_body]
pub struct ExJsonError(serde_json::Error);

/// What `serde_json::from_slice` reads from `bytes` as a JSON object of
/// objects of byte arrays (scope name → key → value), or `None` where it
/// reports an error.
pub uninterp spec fn kv_json_contents(bytes: Seq<u8>) -> Option<
    Map<Seq<char>, Map<Seq<char>, Seq<u8>>>,
>;

/// The bytes that `serde_json::to_vec_pretty` writes for a store's contents,
/// held in sorted maps.
pub uninterp spec fn kv_json_text(contents: Map<Seq<char>, Map<Seq<char>, Seq<u8>>>) -> Seq<u8>;

/// Calls `serde_json::from_slice` to read a nested map of byte arrays.
/// Claimed: the call succeeds exactly when the named reading exists, and the
/// returned pairs (read through sorted maps, so no key occurs twice) stand
/// for that reading.
#[verifier::external_body]
pub(crate) fn parse_kv_json(bytes: &[u8]) -> (r: Result<
    Vec<(String, Vec<(String, Vec<u8>)>)>,
    serde_json::Error,
>)
    ensures
        match r {
            Ok(v) => kv_json_contents(bytes@) == Some(scopes_view(v@)) && well_keyed(v@),
            Err(_) => kv_json_contents(bytes@) is None,
        },
{
    match serde_json::from_slice::<BTreeMap<String, BTreeMap<String, Vec<u8>>>>(bytes) {
        Ok(m) => Ok(m.into_iter().map(|(s, e)| (s, e.into_iter().collect())).collect()),
        Err(e) => Err(e),
    }
}

/// Calls `serde_json::to_vec_pretty` on the contents, held in sorted maps.
/// Claimed: serialising maps with string keys and byte-array values does not
/// fail (serde_json's documentation names only failing `Serialize` impls and
/// non-string map keys), the bytes are the named text, and serde_json reads
/// those bytes back as the same contents.
#[verifier::external_body]
pub(crate) fn write_kv_json(scopes: &Vec<(String, Vec<(String, Vec<u8>)>)>) -> (r: Result<
    Vec<u8>,
    serde_json::Error,
>)
    requires
        well_keyed(scopes@),
    ensures
        r is Ok,
        r matches Ok(bytes) ==> bytes@ == kv_json_text(scopes_view(scopes@)),
        r matches Ok(bytes) ==> kv_json_contents(bytes@) == Some(scopes_view(scopes@)),
{
    let m: BTreeMap<&str, BTreeMap<&str, &Vec<u8>>> = scopes.iter().map(
        |(s, e)| (s.as_str(), e.iter().map(|(k, v)| (k.as_str(), v)).collect()),
    ).collect();
    serde_json::to_vec_pretty(&m)
}

} // verus!

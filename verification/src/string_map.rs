//! Reading `HashMap<String, String>` annotation maps by the characters of
//! their keys and values.

use std::collections::HashMap;
use vstd::prelude::*;
use vstd::string::*;

verus! {

/// Whether the map holds a key spelled `k`.
pub open spec fn has_key(m: Map<String, String>, k: Seq<char>) -> bool {
    exists|s: String| m.contains_key(s) && s@ == k
}

/// The value the map holds under the key spelled `k`.
pub open spec fn value_at(m: Map<String, String>, k: Seq<char>) -> Seq<char> {
    m[choose|s: String| m.contains_key(s) && s@ == k]@
}

/// `r` spells every key of `m` once.
pub open spec fn keys_of(m: Map<String, String>, r: Seq<String>) -> bool {
    &&& forall|i: int| 0 <= i < r.len() ==> has_key(m, #[trigger] r[i]@)
    &&& forall|i: int, j: int| 0 <= i < j < r.len() ==> #[trigger] r[i]@ != #[trigger] r[j]@
    &&& forall|k: Seq<char>| #[trigger] has_key(m, k) ==> exists|i: int| 0 <= i < r.len() && #[trigger] r[i]@ == k
}

/// The keys of a map, in the order `HashMap::keys` visits them.
///
/// Trusted: calls `HashMap::keys` and copies each key into a `Vec`. Claims
/// that every key comes once: a map holds each key once, and two `String`
/// keys are the same key when their characters are. The order is left
/// unsaid: it depends on the hasher's per-process seed.
#[verifier::external_body]
pub(crate) fn map_keys(m: &HashMap<String, String>) -> (r: Vec<String>)
    ensures
        keys_of(m@, r@),
{
    m.keys().cloned().collect()
}

/// The value a map holds under the key spelled `key`.
///
/// Trusted: calls `HashMap::get` with `key` and copies the value it finds.
/// Claims a value is found exactly when the map holds a key of the same
/// characters, and that it is the value held there.
#[verifier::external_body]
pub(crate) fn map_get(m: &HashMap<String, String>, key: &str) -> (r: Option<String>)
    ensures
        r is Some <==> has_key(m@, key@),
        r matches Some(v) ==> v@ == value_at(m@, key@),
{
    m.get(key).cloned()
}

} // verus!

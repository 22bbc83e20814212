//! The Digital Pāli Dictionary: reading the lists of headword ids that its lookup table
//! stores as JSON.
use crate::texts::json_error_message;
use vstd::prelude::*;

verus! {

/// The list of integers that `serde_json` reads from `json` as a `Vec<u32>`, or `None`
/// when it reports an error.
pub uninterp spec fn json_u32_list(json: Seq<char>) -> Option<Seq<u32>>;

/// Reads a JSON list of headword ids.
///
/// Trusted: calls `serde_json::from_str::<Vec<u32>>`; the contract names the result.
#[verifier::external_body]
fn read_json_ids(json: &str) -> (r: Result<Vec<u32>, serde_json::Error>)
    ensures
        match r {
            Ok(ids) => json_u32_list(json@) == Some(ids@),
            Err(_) => json_u32_list(json@) is None,
        },
{
    serde_json::from_str(json)
}

/// The headword ids in the `headwords` field of a lookup entry: a JSON list of integers.
pub fn headword_ids(headwords: &str) -> (r: Result<Vec<u32>, String>)
    ensures
        match r {
            Ok(ids) => json_u32_list(headwords@) == Some(ids@),
            Err(_) => json_u32_list(headwords@) is None,
        },
{
    match read_json_ids(headwords) {
        Ok(ids) => Ok(ids),
        Err(e) => Err(json_error_message(&e)),
    }
}

} // verus!

//! Entries of a Snowball `among` table.
use vstd::prelude::*;

verus! {

/// One entry of an `among` table: the string to match, the index of the longest entry
/// that is a proper suffix of it (or -1), and the result that a match gives.
pub struct Among(pub &'static str, pub i32, pub i32);

/// The strings of an `among` table, in order.
pub open spec fn among_strings(table: Seq<Among>) -> Seq<Seq<char>> {
    table.map_values(|a: Among| a.0@)
}

} // verus!

//! The key-value store kept in the local database.
use vstd::prelude::*;
use crate::text::same_text;

verus! {

/// The SQLite error code of a violated uniqueness constraint.
pub open spec fn unique_violation_code() -> Seq<char> {
    "2067"@
}

/// Whether storing a value must update the existing row: inserting it
/// failed with the database error `code` of a key that is already stored.
pub fn insert_hit_existing_key(code: Option<&str>) -> (r: bool)
    ensures
        r == (code matches Some(c) && c@ == unique_violation_code()),
{
    match code {
        Some(c) => same_text(c, "2067"),
        None => false,
    }
}

} // verus!

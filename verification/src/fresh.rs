//! What the surroundings supply: the time of day and identifiers that were
//! never used before. Nothing is known of these values in advance, so the
//! operations that use them are proved for every value. Each of the calls
//! relies on the machine: on a clock that does not stand before 1970, and
//! on a working source of random numbers.

use vstd::prelude::*;

verus! {

/// `chrono::Utc::now().timestamp()`: the seconds since 1 January 1970 by
/// the clock of the machine. Nothing is claimed of the value.
#[verifier::external_body]
pub(crate) fn unix_now() -> i64 {
    chrono::Utc::now().timestamp()
}

/// `mongodb::bson::oid::ObjectId::new().to_hex()`: a new object identifier
/// in its hexadecimal form. Nothing is claimed of the value.
#[verifier::external_body]
pub(crate) fn new_object_id() -> String {
    mongodb::bson::oid::ObjectId::new().to_hex()
}

/// `uuid::Uuid::new_v4().to_string()`: a random identifier in its
/// hyphenated form. Nothing is claimed of the value.
#[verifier::external_body]
pub(crate) fn new_token() -> String {
    uuid::Uuid::new_v4().to_string()
}

} // verus!

//! Types of outside crates that the records of the service carry.

use vstd::prelude::*;

verus! {

/// `chrono::NaiveDateTime`: a date and time without a time zone, carried
/// through unchanged.
#[verifier::external_type_specification]
#[verifier::external_body]
pub struct ExNaiveDateTime(chrono::NaiveDateTime);

/// `regex::Regex`: a compiled regular expression, carried through unchanged.
#[verifier::external_type_specification]
#[verifier::external_body]
pub struct ExRegex(regex::Regex);

/// `Clone` of `chrono::NaiveDateTime`, a `Copy` type: the clone is the same
/// value.
pub assume_specification[ <chrono::NaiveDateTime as Clone>::clone ](
    this: &chrono::NaiveDateTime,
) -> (r: chrono::NaiveDateTime)
    ensures
        r == *this,
;

} // verus!

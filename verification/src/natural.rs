//! Natural order: digit runs compare as numbers.

use std::cmp::Ordering;
use vstd::prelude::*;

verus! {

/// How `natord::compare` ranks `left` against `right`: negative where
/// `left` comes first, zero where neither does, positive where `right` does.
pub uninterp spec fn natural_order(left: Seq<char>, right: Seq<char>) -> int;

/// Calls `natord::compare`, which compares two strings so that runs of
/// decimal digits count as numbers and white space is passed over.
///
/// Trusted: the result is taken to depend on the characters of the two
/// strings alone.  It is -1, 0 or 1 for `Less`, `Equal` and `Greater`.
#[verifier::external_body]
pub(crate) fn compare_natural(left: &str, right: &str) -> (order: i8)
    ensures
        order == natural_order(left@, right@),
{
    match natord::compare(left, right) {
        Ordering::Less => -1,
        Ordering::Equal => 0,
        Ordering::Greater => 1,
    }
}

} // verus!

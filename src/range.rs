use vstd::prelude::*;

verus! {

/// Whether `version` lies within the range bounded by the exclusive `low` and the
/// inclusive `high`; a missing bound does not restrict.
pub open spec fn within_range_spec(version: i64, low: Option<i64>, high: Option<i64>) -> bool {
    (low is Some ==> version > low->Some_0) && (high is Some ==> version <= high->Some_0)
}

/// Tests whether a version is within a range defined by the exclusive `low` and the
/// inclusive `high` bounds.
pub fn within_range(version: i64, low: Option<i64>, high: Option<i64>) -> (r: bool)
    ensures
        low is None && high is None ==> r,
        low is Some && high is None ==> r == (version > low->Some_0),
        low is None && high is Some ==> r == (version <= high->Some_0),
        low is Some && high is Some ==> r == (version > low->Some_0 && version <= high->Some_0),
        r == within_range_spec(version, low, high),
{
    match (low, high) {
        (None, None) => true,
        (Some(low), None) => version > low,
        (None, Some(high)) => version <= high,
        (Some(low), Some(high)) => version > low && version <= high,
    }
}

} // verus!

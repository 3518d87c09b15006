//! The few `std::time::Duration` operations that the configuration needs.
use std::time::Duration;
use vstd::prelude::*;

verus! {

/// What `Duration::from_secs` returns.
pub uninterp spec fn spec_duration_from_secs(secs: u64) -> Duration;

/// What `Duration::from_millis` returns.
pub uninterp spec fn spec_duration_from_millis(millis: u64) -> Duration;

/// What `Duration::as_millis` returns.
pub uninterp spec fn spec_duration_as_millis(d: Duration) -> u128;

/// Calls `Duration::from_secs`; its result is named `spec_duration_from_secs`,
/// and it lasts `secs` seconds, that is `secs * 1000` milliseconds.
#[verifier::external_body]
pub(crate) fn duration_from_secs(secs: u64) -> (d: Duration)
    ensures
        d == spec_duration_from_secs(secs),
        spec_duration_as_millis(d) == secs * 1000,
{
    Duration::from_secs(secs)
}

/// Calls `Duration::from_millis`; its result is named `spec_duration_from_millis`,
/// and it lasts `millis` milliseconds.
#[verifier::external_body]
pub(crate) fn duration_from_millis(millis: u64) -> (d: Duration)
    ensures
        d == spec_duration_from_millis(millis),
        spec_duration_as_millis(d) == millis,
{
    Duration::from_millis(millis)
}

/// Calls `Duration::as_millis`; its result is named `spec_duration_as_millis`.
#[verifier::external_body]
pub(crate) fn duration_as_millis(d: &Duration) -> (ms: u128)
    ensures
        ms == spec_duration_as_millis(*d),
{
    d.as_millis()
}

/// `Duration` is `Copy`: its `clone` returns the same value.
pub assume_specification[ <Duration as Clone>::clone ](d: &Duration) -> (r: Duration)
    ensures
        r == *d,
;

} // verus!

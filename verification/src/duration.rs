//! Spans of time.
use std::time::Duration;
use vstd::prelude::*;

verus! {

/// `Duration::clone`. Believed of it: the clone is the same span.
pub assume_specification[ <Duration as Clone>::clone ](d: &Duration) -> (r: Duration)
    ensures
        r == *d,
;

/// How many nanoseconds a span of time is, `Duration::as_nanos`.
pub uninterp spec fn nanos_in(d: Duration) -> u128;

/// `Duration::as_nanos`, whose result is named `nanos_in`. It depends on the
/// span alone.
#[verifier::external_body]
pub(crate) fn nanos_of(d: Duration) -> (r: u128)
    ensures
        r == nanos_in(d),
{
    d.as_nanos()
}

/// `Duration::from_secs`. Believed of it: the span is that many seconds, each
/// of a thousand million nanoseconds.
#[verifier::external_body]
pub(crate) fn seconds(secs: u64) -> (r: Duration)
    ensures
        nanos_in(r) == secs * 1_000_000_000,
{
    Duration::from_secs(secs)
}

/// `Duration::from_micros`. Believed of it: the span is that many microseconds,
/// each of a thousand nanoseconds.
#[verifier::external_body]
pub(crate) fn micros(n: u64) -> (r: Duration)
    ensures
        nanos_in(r) == n * 1_000,
{
    Duration::from_micros(n)
}

/// How a span of time reads, `Duration` through `Debug`.
pub uninterp spec fn duration_text(d: Duration) -> Seq<char>;

/// `format!` with `{:?}` of a `Duration`, whose result is named
/// `duration_text`. Believed of it is only that it depends on the span alone.
#[verifier::external_body]
pub(crate) fn duration_message(d: Duration) -> (r: String)
    ensures
        r@ == duration_text(d),
{
    format!("{:?}", d)
}

} // verus!

//! Times in nanoseconds since the Unix epoch.
use vstd::prelude::*;

verus! {

/// A time in nanoseconds since the Unix epoch.
pub type NanoTime = u64;

/// The text that `humantime::format_duration` gives for a duration of `nanos`
/// nanoseconds.
pub uninterp spec fn spec_format_duration(nanos: u64) -> Seq<char>;

/// Calls `humantime::format_duration` on `Duration::from_nanos(nanos)` and renders the
/// result. Claimed: the text is the named one, and a zero duration reads "0s", as
/// humantime's `Display` writes it. The composition of other durations ("1s 500ms") is
/// left to the name.
#[verifier::external_body]
fn format_duration_nanos(nanos: u64) -> (r: String)
    ensures
        r@ == spec_format_duration(nanos),
        nanos == 0 ==> r@ == seq!['0', 's'],
{
    humantime::format_duration(std::time::Duration::from_nanos(nanos)).to_string()
}

/// A duration of `nanos` nanoseconds as human-readable text, such as "1s 500ms".
pub fn nanos_pretty(nanos: NanoTime) -> (r: String)
    ensures
        r@ == spec_format_duration(nanos),
        nanos == 0 ==> r@ == seq!['0', 's'],
{
    format_duration_nanos(nanos)
}

} // verus!

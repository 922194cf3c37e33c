//! The time of day.
use vstd::prelude::*;

verus! {

/// `std::time::SystemTime::now`, in milliseconds since 1970. Nothing is said of
/// the result: it is whatever the clock of the machine shows.
#[verifier::external_body]
pub(crate) fn now_ms() -> (r: u128) {
    std::time::SystemTime::now()
        .duration_since(std::time::UNIX_EPOCH)
        .unwrap_or_default()
        .as_millis()
}

} // verus!

use vstd::prelude::*;

verus! {

/// Relies on time's `OffsetDateTime::now_utc`, read as nanoseconds since
/// the Unix epoch; nothing is assumed of the value.
#[verifier::external_body]
pub(crate) fn now_nanos() -> (r: i128) {
    time::OffsetDateTime::now_utc().unix_timestamp_nanos()
}

} // verus!

//! Values that come from outside the logic: fresh identifiers and the clock.
//! Nothing is promised of them; the logic that uses them takes them as
//! arguments wherever its result depends on them.

use vstd::prelude::*;

verus! {

/// Relies on uuid's `Uuid::new_v4` and its `Display`: a random version-4 id in
/// hyphenated text form.
#[verifier::external_body]
pub(crate) fn new_uuid_string() -> (r: String) {
    uuid::Uuid::new_v4().to_string()
}

/// Relies on chrono's `Utc::now` and `DateTime::timestamp_millis`: the current
/// time in milliseconds since the Unix epoch.
#[verifier::external_body]
pub(crate) fn now_millis() -> (r: i64) {
    chrono::Utc::now().timestamp_millis()
}

} // verus!

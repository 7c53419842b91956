use vstd::prelude::*;
use crate::ident::Uuid;
use crate::time::Timestamp;

verus! {

/// Relies on uuid::Uuid::new_v4: a freshly generated random version-4
/// identifier. Nothing can be promised of a random value.
#[verifier::external_body]
pub(crate) fn fresh_uuid() -> Uuid {
    Uuid(uuid::Uuid::new_v4().as_u128())
}

/// Relies on chrono::Utc::now: the wall-clock moment of the call, in
/// milliseconds since the Unix epoch. Nothing can be promised of the
/// clock's reading.
#[verifier::external_body]
pub(crate) fn now_timestamp() -> Timestamp {
    Timestamp { millis: chrono::Utc::now().timestamp_millis() }
}

} // verus!

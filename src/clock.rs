//! The current time, read from the system clock.
use vstd::prelude::*;
use crate::eval::Timestamp;

verus! {

/// Relies on chrono's `Utc::now`, which reads the system clock (and panics
/// when that clock is set before 1970). Its sub-second part comes from
/// `Duration::subsec_nanos`, which is below one second.
#[verifier::external_body]
pub(crate) fn now() -> (r: Timestamp)
    ensures
        r.wf(),
{
    let t = chrono::Utc::now();
    Timestamp { secs: t.timestamp(), nanos: t.timestamp_subsec_nanos() }
}

} // verus!

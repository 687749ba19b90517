//! The system clock.
use vstd::prelude::*;

use crate::types::Timestamp;

verus! {

/// The system clock's type.
#[verifier::external_type_specification]
#[verifier::external_body]
pub struct ExSystemTime(std::time::SystemTime);

/// Calls `std::time::SystemTime::now`: the reading of the system clock.
/// Nothing is stated of it: it depends on the clock.
#[verifier::external_body]
fn system_now() -> (r: std::time::SystemTime) {
    std::time::SystemTime::now()
}

/// Calls `SystemTime::duration_since` with the Unix epoch: the whole seconds
/// and the nanoseconds past them since the epoch, or `None` when the time is
/// before the epoch (the error case). The nanoseconds of a duration are
/// below one billion.
#[verifier::external_body]
fn since_epoch(t: &std::time::SystemTime) -> (r: Option<(u64, u32)>)
    ensures
        r matches Some((_, nanos)) ==> nanos < 1_000_000_000,
{
    match t.duration_since(std::time::UNIX_EPOCH) {
        Ok(d) => Some((d.as_secs(), d.subsec_nanos())),
        Err(_) => None,
    }
}

/// The current instant in UTC, as seconds and nanoseconds since the Unix
/// epoch; `None` when the system clock reads before the epoch or beyond
/// what `i64` seconds hold.
pub fn current_time() -> (r: Option<Timestamp>)
    ensures
        r matches Some(t) ==> t.secs >= 0 && t.nanos < 1_000_000_000,
{
    let now = system_now();
    match since_epoch(&now) {
        Some((secs, nanos)) => {
            if secs <= 0x7fff_ffff_ffff_ffff {
                Some(Timestamp { secs: secs as i64, nanos })
            } else {
                None
            }
        },
        None => None,
    }
}

} // verus!

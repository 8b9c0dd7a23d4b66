use vstd::prelude::*;

verus! {

/// Milliseconds since the UNIX epoch, read from the system clock through
/// `std::time::SystemTime::elapsed` on `UNIX_EPOCH`.  Nothing is promised
/// of the value: it depends on the time at which it is read, and a clock
/// set before the epoch reads as 0.
#[verifier::external_body]
pub(crate) fn now_millis() -> u64 {
    std::time::UNIX_EPOCH.elapsed().map_or(0, |d| d.as_millis() as u64)
}

/// Time elapsed from `since` to `now`, saturating at zero when the clock
/// reads earlier than `since`.
pub open spec fn elapsed_ms(since: u64, now: u64) -> nat {
    if now >= since { (now - since) as nat } else { 0 }
}

/// Executable form of [`elapsed_ms`].
pub fn elapsed_between(since: u64, now: u64) -> (r: u64)
    ensures
        r == elapsed_ms(since, now),
{
    if now >= since { now - since } else { 0 }
}

} // verus!

use vstd::prelude::*;

verus! {

/// `std::time::Instant`, carried through as an opaque value.
#[verifier::external_type_specification]
#[verifier::external_body]
pub struct ExInstant(std::time::Instant);

/// `std::time::SystemTime`, carried through as an opaque value.
#[verifier::external_type_specification]
#[verifier::external_body]
pub struct ExSystemTime(std::time::SystemTime);

/// `std::time::SystemTimeError`, carried through as an opaque value.
#[verifier::external_type_specification]
#[verifier::external_body]
pub struct ExSystemTimeError(std::time::SystemTimeError);

/// Reads the monotonic clock (`std::time::Instant::now`). Nothing is claimed
/// of the value: it depends on when the call is made.
#[verifier::external_body]
pub(crate) fn instant_now() -> (r: std::time::Instant) {
    std::time::Instant::now()
}

/// The time elapsed since `start` (`Instant::elapsed`); it depends on the
/// clock, so nothing is claimed of it.
#[verifier::external_body]
fn elapsed(start: &std::time::Instant) -> (r: std::time::Duration) {
    start.elapsed()
}

/// `Duration::as_millis`: whole milliseconds of `d`. `Duration` is opaque
/// here, so the value is left unstated.
#[verifier::external_body]
fn duration_millis(d: &std::time::Duration) -> (r: u128) {
    d.as_millis()
}

/// `Duration::as_secs`: whole seconds of `d`. `Duration` is opaque here, so
/// the value is left unstated.
#[verifier::external_body]
fn duration_secs(d: &std::time::Duration) -> (r: u64) {
    d.as_secs()
}

/// Reads the system clock (`std::time::SystemTime::now`); nothing is claimed
/// of the value.
#[verifier::external_body]
fn system_now() -> (r: std::time::SystemTime) {
    std::time::SystemTime::now()
}

/// `SystemTime::duration_since(UNIX_EPOCH)`: the time since the epoch, or an
/// error for a time before it. Neither outcome is stated: both depend on the
/// clock.
#[verifier::external_body]
fn since_epoch(t: &std::time::SystemTime) -> (r: Result<std::time::Duration, std::time::SystemTimeError>) {
    t.duration_since(std::time::UNIX_EPOCH)
}

/// Whole milliseconds elapsed since `start`, saturated to `u64`.
pub(crate) fn millis_since(start: &std::time::Instant) -> (r: u64) {
    let m = duration_millis(&elapsed(start));
    if m > u64::MAX as u128 {
        u64::MAX
    } else {
        m as u64
    }
}

/// Whole seconds elapsed since `start`.
pub(crate) fn secs_since(start: &std::time::Instant) -> (r: u64) {
    duration_secs(&elapsed(start))
}

/// Seconds since the Unix epoch by the system clock, 0 for a clock set
/// before the epoch.
pub(crate) fn unix_now_secs() -> (r: i64) {
    match since_epoch(&system_now()) {
        Ok(d) => {
            let s = duration_secs(&d);
            #[verifier::truncate]
            (s as i64)
        },
        Err(_) => 0,
    }
}

} // verus!

//! Outside types that the library's structures hold, and the calls into
//! them.
use vstd::prelude::*;

verus! {

/// `tokio::sync::broadcast::Sender`, carried as an opaque handle.
#[verifier::reject_recursive_types(T)]
#[verifier::external_type_specification]
#[verifier::external_body]
pub struct ExBroadcastSender<T>(tokio::sync::broadcast::Sender<T>);

/// `tokio::sync::mpsc::UnboundedSender`, carried as an opaque handle.
#[verifier::reject_recursive_types(T)]
#[verifier::external_type_specification]
#[verifier::external_body]
pub struct ExUnboundedSender<T>(tokio::sync::mpsc::UnboundedSender<T>);

/// `tokio::sync::broadcast::Sender::send`: hands the value to every current
/// receiver; whether there was one (the `Ok` case) depends on the other
/// tasks, so nothing is promised about the outcome.
#[verifier::external_body]
pub(crate) fn broadcast_send<T>(sender: &tokio::sync::broadcast::Sender<T>, value: T) -> (delivered: bool) {
    sender.send(value).is_ok()
}

/// `tokio::sync::mpsc::UnboundedSender::send`: queues the message unless the
/// receiver is gone; which of the two holds depends on the other tasks, so
/// nothing is promised about the outcome.
#[verifier::external_body]
pub(crate) fn unbounded_send<T>(sender: &tokio::sync::mpsc::UnboundedSender<T>, message: T) -> (queued: bool) {
    sender.send(message).is_ok()
}

/// `std::time::SystemTime`, carried as an opaque handle.
#[verifier::external_type_specification]
#[verifier::external_body]
pub struct ExSystemTime(std::time::SystemTime);

/// `SystemTime::now`: the wall clock; nothing is promised about its value.
#[verifier::external_body]
pub(crate) fn system_now() -> std::time::SystemTime {
    std::time::SystemTime::now()
}

/// `SystemTime::duration_since(UNIX_EPOCH)`: how long after the Unix epoch
/// the time lies, or `None` for a time before it.
#[verifier::external_body]
pub(crate) fn since_epoch(t: &std::time::SystemTime) -> Option<std::time::Duration> {
    t.duration_since(std::time::UNIX_EPOCH).ok()
}

/// The whole milliseconds of a duration, as `Duration::as_millis` gives them.
pub uninterp spec fn whole_millis(d: std::time::Duration) -> u128;

/// `Duration::as_millis`: the whole milliseconds of a duration, the same
/// for the same duration.
#[verifier::external_body]
pub(crate) fn duration_millis(d: &std::time::Duration) -> (r: u128)
    ensures
        r == whole_millis(*d),
{
    d.as_millis()
}

/// The duration that `Duration::from_secs(secs)` builds: `secs` whole
/// seconds (a `Duration` has no view, so it is named as a whole).
pub uninterp spec fn seconds_duration(secs: u64) -> std::time::Duration;

/// `Duration::from_secs`: a duration of whole seconds, the same for the
/// same count.
#[verifier::external_body]
pub(crate) fn duration_from_secs(secs: u64) -> (d: std::time::Duration)
    ensures
        d == seconds_duration(secs),
{
    std::time::Duration::from_secs(secs)
}

/// The wall clock in whole milliseconds since the Unix epoch, or `None`
/// when the clock is set before the epoch.
pub fn clock_millis() -> Option<u128> {
    match since_epoch(&system_now()) {
        Some(d) => Some(duration_millis(&d)),
        None => None,
    }
}

/// The wall clock in milliseconds since the Unix epoch, cut to 64 bits; a
/// clock set before the epoch reads as 0.
pub fn now_millis() -> u64 {
    match since_epoch(&system_now()) {
        Some(d) => {
            let ms = duration_millis(&d);
            #[verifier::truncate]
            (ms as u64)
        },
        None => 0,
    }
}

} // verus!

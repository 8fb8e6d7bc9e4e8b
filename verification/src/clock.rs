//! The wall clock, read in whole seconds since the Unix epoch.
use vstd::prelude::*;
use crate::helper::{elapsed_text, format_elapsed};

verus! {

/// Declares `std::time::SystemTime`, a point in time on the wall clock.
#[verifier::external_type_specification]
#[verifier::external_body]
pub struct ExSystemTime(std::time::SystemTime);

/// The current wall-clock time (`SystemTime::now`). Nothing is stated of
/// it: it depends on the clock.
#[verifier::external_body]
fn system_now() -> std::time::SystemTime {
    std::time::SystemTime::now()
}

/// The whole seconds from `earlier` to `later`, `None` when `earlier` is
/// later than `later` (`SystemTime::duration_since`, read with
/// `Duration::as_secs`): a function of the two points in time alone.
pub uninterp spec fn whole_secs_between(later: std::time::SystemTime, earlier: std::time::SystemTime) -> Option<u64>;

/// The whole seconds from the Unix epoch to `t`, `None` when `t` lies before
/// the epoch (`SystemTime::duration_since(UNIX_EPOCH)`, read with
/// `Duration::as_secs`): a function of `t` alone.
pub uninterp spec fn secs_since_epoch(t: std::time::SystemTime) -> Option<u64>;

/// Whole seconds from `earlier` to `later` (`SystemTime::duration_since`,
/// read with `Duration::as_secs`); `None` when `earlier` is later than
/// `later`. The value is named by [`whole_secs_between`]: `SystemTime` is
/// opaque here, so nothing more is said of it.
#[verifier::external_body]
fn seconds_between(later: &std::time::SystemTime, earlier: &std::time::SystemTime) -> (r: Option<u64>)
    ensures
        r == whole_secs_between(*later, *earlier),
{
    later.duration_since(*earlier).ok().map(|d| d.as_secs())
}

/// Whole seconds from the Unix epoch to `t`
/// (`SystemTime::duration_since(UNIX_EPOCH)`, read with `Duration::as_secs`);
/// `None` when `t` lies before the epoch. The value is named by
/// [`secs_since_epoch`].
#[verifier::external_body]
fn seconds_since_epoch(t: &std::time::SystemTime) -> (r: Option<u64>)
    ensures
        r == secs_since_epoch(*t),
{
    t.duration_since(std::time::UNIX_EPOCH).ok().map(|d| d.as_secs())
}

/// The current time in whole seconds since the Unix epoch, for the clock
/// reading taken; a clock set before the epoch reads as 0.
pub fn epoch_seconds() -> (r: u64)
    ensures
        exists|now: std::time::SystemTime|
            match #[trigger] secs_since_epoch(now) {
                Some(s) => r == s,
                None => r == 0,
            },
{
    let now = system_now();
    match seconds_since_epoch(&now) {
        Some(s) => s,
        None => 0,
    }
}

/// How long ago `created_at` was, as the notification drawer labels it
/// ("now", "5m", "3h", "2d"); a time later than the clock reads "now". The
/// label is the one `format_elapsed` gives for the whole seconds from
/// `created_at` to the clock reading taken.
pub fn format_time_elapsed(created_at: std::time::SystemTime) -> (r: String)
    ensures
        exists|now: std::time::SystemTime| r@ == elapsed_text(#[trigger] whole_secs_between(now, created_at)),
{
    let now = system_now();
    let secs = seconds_between(&now, &created_at);
    format_elapsed(secs)
}

} // verus!

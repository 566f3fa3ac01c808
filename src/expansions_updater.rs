//! The background updater's decisions: how long to wait before the next run and
//! what a run records.
use vstd::prelude::*;

verus! {

/// The default time between updater runs: fourteen days, in milliseconds.
pub const DEFAULT_UPDATE_INTERVAL_MILLIS: i64 = 1209600000;

/// A failure of one updater run, with a message for the log.
#[derive(Debug)]
pub struct UpdaterError {
    message: String,
}

impl UpdaterError {
    /// The message of this error.
    pub closed spec fn message_spec(&self) -> Seq<char> {
        self.message@
    }

    /// An error with `message`.
    pub fn from(message: &str) -> (r: UpdaterError)
        ensures
            r.message_spec() == message@,
    {
        UpdaterError { message: message.to_owned() }
    }

    /// The message of this error.
    pub fn message(&self) -> (r: &str)
        ensures
            r@ == self.message_spec(),
    {
        self.message.as_str()
    }
}

/// How long to wait before the next run: what is left of the interval since the
/// last run (at most `u64::MAX`), and nothing when there was no run or the
/// interval has passed.
pub open spec fn spec_sleep_millis(now: int, last: Option<i64>, interval: int) -> int {
    match last {
        Some(t) => if interval - (now - t) > u64::MAX {
            u64::MAX as int
        } else if interval - (now - t) > 0 {
            interval - (now - t)
        } else {
            0
        },
        None => 0,
    }
}

/// How long to wait before the next run, in milliseconds.
pub fn sleep_millis(now_millis: i64, last_run_millis: Option<i64>, update_interval_millis: i64) -> (r: u64)
    ensures
        r as int == spec_sleep_millis(now_millis as int, last_run_millis, update_interval_millis as int),
{
    match last_run_millis {
        Some(t) => {
            let left: i128 = update_interval_millis as i128 - (now_millis as i128 - t as i128);
            if left > u64::MAX as i128 {
                u64::MAX
            } else if left > 0 {
                left as u64
            } else {
                0
            }
        },
        None => 0,
    }
}

/// The outcome a run records: success when the pull request offered an
/// expansions file, failure when it did not.
pub open spec fn spec_outcome(found: bool) -> Seq<char> {
    if found {
        "success"@
    } else {
        "failure"@
    }
}

/// The outcome a run records.
pub fn outcome(found: bool) -> (r: &'static str)
    ensures
        r@ == spec_outcome(found),
{
    if found {
        "success"
    } else {
        "failure"
    }
}

} // verus!

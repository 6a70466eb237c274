//! The scheduling loop's decisions: parsing the cron expression, asking
//! for the next trigger instant, the tie-break that prevents firing twice
//! on one instant, and the wait until the trigger. The waiting itself
//! (suspending the task) stays outside the library.

use vstd::prelude::*;
use crate::errors::ConfigError;

verus! {

#[verifier::external_type_specification]
#[verifier::external_body]
pub struct ExSchedule(cron::Schedule);

#[verifier::external_type_specification]
#[verifier::external_body]
pub struct ExCronError(cron::error::Error);

/// Whether cron accepts `expr` as a schedule expression; a function of
/// the expression alone.
pub uninterp spec fn cron_parses(expr: Seq<char>) -> bool;

/// Relies on cron's FromStr for Schedule: whether an expression parses
/// depends on the expression alone.
#[verifier::external_body]
fn parse_schedule(expr: &str) -> (r: Result<cron::Schedule, cron::error::Error>)
    ensures
        r is Ok == cron_parses(expr@),
{
    <cron::Schedule as std::str::FromStr>::from_str(expr)
}

/// Relies on cron's Schedule::upcoming over chrono's local zone, reading
/// the clock: the next matching instant, as Unix seconds. Two calls may
/// differ, so nothing is promised of the result.
#[verifier::external_body]
fn next_occurrence(schedule: &cron::Schedule) -> (r: Option<i64>) {
    schedule.upcoming(chrono::Local).next().map(|t| t.timestamp())
}

/// Relies on std's Display for cron's Error for the error's text.
#[verifier::external_body]
fn cron_error_message(e: &cron::error::Error) -> (r: String) {
    format!("{}", e)
}

/// The state the scheduling loop carries between triggers: the parsed
/// schedule and the instant that fired last.
pub struct Scheduler {
    pub schedule: cron::Schedule,
    pub last: Option<i64>,
}

impl Scheduler {
    /// Parses the cron expression; an expression cron rejects is a fatal
    /// configuration error.
    pub fn new(backup_cron: &str) -> (r: Result<Scheduler, ConfigError>)
        ensures
            r is Ok <==> cron_parses(backup_cron@),
            r matches Ok(s) ==> s.last is None,
            r matches Err(e) ==> e is InvalidSchedule,
    {
        match parse_schedule(backup_cron) {
            Ok(schedule) => Ok(Scheduler { schedule, last: None }),
            Err(e) => Err(ConfigError::InvalidSchedule { message: cron_error_message(&e) }),
        }
    }

    /// Asks for the next trigger instant and decides what the loop does:
    /// `Some(d)` tells the caller to wait `d` seconds and then run one
    /// backup cycle; `None` tells it to try again, either because no
    /// instant is resolvable or because the resolved instant has already
    /// fired (the tie-break that prevents double-firing). The decision
    /// itself is `decide_wait`, pinned for every observed instant; a
    /// fired instant is recorded and is strictly above the one before it.
    pub fn next_wait(&mut self, now: i64) -> (r: Option<u64>)
        ensures
            r matches Some(d) ==> (final(self).last matches Some(t) && (old(
                self,
            ).last matches Some(l) ==> t > l) && d == wait_until(t as int, now as int)),
            r is None ==> final(self).last == old(self).last,
    {
        let upcoming = next_occurrence(&self.schedule);
        let (wait, fired) = decide_wait(self.last, upcoming, now);
        self.last = fired;
        wait
    }
}

/// The wait from `now` until `t`, in whole seconds, never negative.
pub open spec fn wait_until(t: int, now: int) -> u64 {
    if t >= now {
        (t - now) as u64
    } else {
        0u64
    }
}

/// The scheduling loop's decision for one observed upcoming instant:
/// what to wait before firing, and the new last-fired instant. No
/// resolvable instant, or an instant that has already fired, waits
/// nothing and leaves the record unchanged; a fresh instant is recorded
/// and waited for until it arrives.
pub fn decide_wait(last: Option<i64>, upcoming: Option<i64>, now: i64) -> (r: (
    Option<u64>,
    Option<i64>,
))
    ensures
        r == (match upcoming {
            None => (None::<u64>, last),
            Some(t) => (match last {
                Some(l) => if l >= t {
                    (None::<u64>, last)
                } else {
                    (Some(wait_until(t as int, now as int)), Some(t))
                },
                None => (Some(wait_until(t as int, now as int)), Some(t)),
            }),
        }),
{
    match upcoming {
        Some(t) => {
            let already_fired = match last {
                Some(l) => l >= t,
                None => false,
            };
            if already_fired {
                (None, last)
            } else {
                let d: u64 = if t >= now {
                    ((t as i128) - (now as i128)) as u64
                } else {
                    0
                };
                (Some(d), Some(t))
            }
        },
        None => (None, last),
    }
}

} // verus!

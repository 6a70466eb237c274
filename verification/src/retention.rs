//! The retention policy: how many backups to keep and for how many days.

use vstd::prelude::*;
use crate::text::{digits_val, is_usize_string, usize_digits};

verus! {

/// The value an optional environment variable yields: its digits when it
/// holds a decimal `usize`, the default otherwise.
pub open spec fn spec_env_or_default(val: Option<Seq<char>>, default: int) -> int {
    match val {
        Some(s) => if is_usize_string(s) {
            digits_val(usize_digits(s))
        } else {
            default
        },
        None => default,
    }
}

/// Bounds on the set of retained backup artifacts: at most `count` of
/// them, none older than `period` days. `usize::MAX` in either field
/// stands for no bound.
#[derive(Clone, Copy)]
pub struct RetentionPolicy {
    pub count: usize,
    pub period: usize,
}

impl RetentionPolicy {
    /// A policy from the values of the two environment variables that
    /// configure retention, each `None` when unset; an unset or
    /// unparseable value leaves that bound open.
    pub fn new_from_env(count_var: Option<String>, period_var: Option<String>) -> (r: Self)
        ensures
            r.count == spec_env_or_default(
                match count_var {
                    Some(s) => Some(s@),
                    None => None,
                },
                usize::MAX as int,
            ),
            r.period == spec_env_or_default(
                match period_var {
                    Some(s) => Some(s@),
                    None => None,
                },
                usize::MAX as int,
            ),
    {
        Self {
            count: Self::parse_env_or_default(count_var, usize::MAX),
            period: Self::parse_env_or_default(period_var, usize::MAX),
        }
    }

    /// A policy under which no artifact is ever deleted.
    pub fn new_no_delete() -> (r: Self)
        ensures
            r.count == usize::MAX,
            r.period == usize::MAX,
    {
        Self { count: usize::MAX, period: usize::MAX }
    }

    /// The numeric value of an environment variable, or `default` when the
    /// variable is unset or does not hold a decimal `usize`.
    fn parse_env_or_default(val: Option<String>, default: usize) -> (r: usize)
        ensures
            r == spec_env_or_default(
                match val {
                    Some(s) => Some(s@),
                    None => None,
                },
                default as int,
            ),
    {
        match val {
            Some(s) => match crate::text::parse_usize(s.as_str()) {
                Some(v) => v,
                None => default,
            },
            None => default,
        }
    }
}

} // verus!

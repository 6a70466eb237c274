//! Closed error kinds, one per collaborator, so callers can tell fatal
//! configuration mistakes from failures of the remote side.

use vstd::prelude::*;
use crate::text::str_eq;

verus! {

/// What the operator asked the process to do.
#[derive(Clone, Copy, Debug, PartialEq, Eq, Structural)]
pub enum Action {
    Backup,
    Restore,
}

/// Resolves the action selector: `backup` and `restore` are the only
/// actions; anything else is a fatal configuration error naming the
/// selector.
pub fn parse_action(action: &str) -> (r: Result<Action, ConfigError>)
    ensures
        action@ == "backup"@ ==> r == Ok::<Action, ConfigError>(Action::Backup),
        action@ == "restore"@ ==> r == Ok::<Action, ConfigError>(Action::Restore),
        action@ != "backup"@ && action@ != "restore"@ ==> (r matches Err(
            ConfigError::InvalidAction { action: a },
        ) && a@ == action@),
{
    proof {
        reveal_strlit("backup");
        reveal_strlit("restore");
        assert("backup"@ != "restore"@) by {
            assert("backup"@.len() == 6);
            assert("restore"@.len() == 7);
        }
    }
    if str_eq(action, "backup") {
        Ok(Action::Backup)
    } else if str_eq(action, "restore") {
        Ok(Action::Restore)
    } else {
        Err(ConfigError::InvalidAction { action: action.to_owned() })
    }
}

/// A fatal configuration mistake: the process cannot start.
#[derive(Debug)]
pub enum ConfigError {
    /// A required environment variable is not set.
    MissingVar { name: String },
    /// The action selector is neither `backup` nor `restore`.
    InvalidAction { action: String },
    /// The cron expression cannot be parsed.
    InvalidSchedule { message: String },
}

/// A failure of the remote transport.
#[derive(Debug)]
pub enum TransportError {
    /// Opening or driving the command channel failed.
    Ssh { message: String },
    /// Reading the remote command's output failed.
    Io { message: String },
    /// The remote command exited with a non-zero status.
    CommandFailed { output: String },
    /// Deleting some of the selected artifacts failed; every name was
    /// still attempted, and these are the ones whose deletion failed.
    DeletesFailed { names: Vec<String> },
    /// No backup artifact exists on the server.
    NoBackups,
}

} // verus!

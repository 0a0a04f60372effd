//! The guard against edits of the task file made outside the program.
//!
//! A background watcher checks the file's modification time again and
//! again. Every write the program makes is announced with an
//! [`EditStatus::Authorized`] message; a change with no such message is
//! someone else's, and the program warns and stops.

use vstd::prelude::*;
use crate::vals::EditStatus;

verus! {

/// What the watcher does after one look at the task file.
#[derive(PartialEq, Eq, Structural, Debug, Clone, Copy)]
pub enum WatchAction {
    /// The file has not changed since the previous look.
    Nothing,
    /// The change was announced: record that the announcement was seen.
    Acknowledge,
    /// The change was not announced: warn the user and quit.
    Warn,
}

/// Decides the watcher's step. `changed` tells whether the file's
/// modification time is later than at the previous look (never on the
/// first look); `message` is the announcement waiting in the channel, if
/// any.
pub fn on_file_checked(changed: bool, message: Option<EditStatus>) -> (a: WatchAction)
    ensures
        !changed ==> a == WatchAction::Nothing,
        changed && message == Some(EditStatus::Authorized) ==> a == WatchAction::Acknowledge,
        changed && message != Some(EditStatus::Authorized) ==> a == WatchAction::Warn,
{
    if !changed {
        WatchAction::Nothing
    } else {
        let received = match message {
            Some(m) => m,
            None => EditStatus::Unauthorized,
        };
        match received {
            EditStatus::Authorized => WatchAction::Acknowledge,
            _ => WatchAction::Warn,
        }
    }
}

} // verus!

//! Constants and the small enums shared by the whole program.

use vstd::prelude::*;

verus! {

/// The largest task id that the menus accept.
pub const MAX_TASKS: usize = 1000;

/// The state of a task. `Nth` means "nothing": when editing, it keeps
/// the status the task already has.
#[derive(PartialEq, Eq, Structural, Debug, Clone, Copy)]
pub enum TaskStatus {
    InProgress,
    Complete,
    Pending,
    Nth,
}

/// Whether a write to the task file was announced by the program itself.
#[derive(PartialEq, Eq, Structural, Debug, Clone, Copy)]
pub enum EditStatus {
    Authorized,
    Unauthorized,
}

/// The status a key of the add-task menu stands for.
pub open spec fn status_for_choice(choice: char) -> Option<TaskStatus> {
    if choice == '1' {
        Some(TaskStatus::Pending)
    } else if choice == '2' {
        Some(TaskStatus::Complete)
    } else if choice == '3' {
        Some(TaskStatus::InProgress)
    } else {
        None
    }
}

impl TaskStatus {
    /// Maps a key of the add-task menu (`1` pending, `2` complete,
    /// `3` in progress) to its status; any other key gives `None`.
    pub fn from_choice(choice: char) -> (r: Option<TaskStatus>)
        ensures
            r == status_for_choice(choice),
    {
        if choice == '1' {
            Some(TaskStatus::Pending)
        } else if choice == '2' {
            Some(TaskStatus::Complete)
        } else if choice == '3' {
            Some(TaskStatus::InProgress)
        } else {
            None
        }
    }

    /// Maps a key of the edit-task menu: like [`TaskStatus::from_choice`],
    /// and every other key (`4` among them) means "leave the status as it is".
    pub fn from_edit_choice(choice: char) -> (r: TaskStatus)
        ensures
            r == (match status_for_choice(choice) {
                Some(s) => s,
                None => TaskStatus::Nth,
            }),
    {
        match TaskStatus::from_choice(choice) {
            Some(s) => s,
            None => TaskStatus::Nth,
        }
    }
}

} // verus!

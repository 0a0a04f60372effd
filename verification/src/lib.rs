//! A small task list: tasks carry a numeric id, a name and a status.
//! The library holds the rules of the list (how ids are handed out, how
//! tasks are removed, edited and filtered, how user input is read) with
//! their contracts; the terminal program around it lives in `app/`.

pub mod vals;
pub mod text;
pub mod tasks;
pub mod watch;
pub mod laws;

pub use vals::{EditStatus, TaskStatus, MAX_TASKS};
pub use text::{edit_changes_nothing, is_blank, parse_task_id, trim_owned, TaskIdError};
pub use tasks::BaseTasks;
pub use watch::{on_file_checked, WatchAction};

use tda::{edit_changes_nothing, is_blank, parse_task_id, trim_owned, TaskIdError, TaskStatus, MAX_TASKS};

#[test]
fn task_id_plain_number() {
    assert_eq!(parse_task_id("12"), Ok(12));
    assert_eq!(parse_task_id("0"), Ok(0));
    assert_eq!(parse_task_id("1000"), Ok(1000));
    assert_eq!(MAX_TASKS, 1000);
}

#[test]
fn task_id_with_line_end_and_spaces() {
    assert_eq!(parse_task_id("  7\n"), Ok(7));
    assert_eq!(parse_task_id("\t42\r\n"), Ok(42));
}

#[test]
fn task_id_with_plus_and_leading_zeros() {
    assert_eq!(parse_task_id("+5"), Ok(5));
    assert_eq!(parse_task_id("007"), Ok(7));
}

#[test]
fn task_id_out_of_range() {
    assert_eq!(parse_task_id("1001"), Err(TaskIdError::OutOfRange));
    assert_eq!(parse_task_id("65535"), Err(TaskIdError::OutOfRange));
}

#[test]
fn task_id_invalid() {
    assert_eq!(parse_task_id(""), Err(TaskIdError::Invalid));
    assert_eq!(parse_task_id("   \n"), Err(TaskIdError::Invalid));
    assert_eq!(parse_task_id("abc"), Err(TaskIdError::Invalid));
    assert_eq!(parse_task_id("-1"), Err(TaskIdError::Invalid));
    assert_eq!(parse_task_id("+"), Err(TaskIdError::Invalid));
    assert_eq!(parse_task_id("1 2"), Err(TaskIdError::Invalid));
    assert_eq!(parse_task_id("65536"), Err(TaskIdError::Invalid));
    assert_eq!(parse_task_id("3.0"), Err(TaskIdError::Invalid));
}

#[test]
fn blank_names() {
    assert!(is_blank(""));
    assert!(is_blank(" \t\n"));
    assert!(is_blank("\u{3000}\u{a0}"));
    assert!(!is_blank(" a "));
}

#[test]
fn trimming_names() {
    assert_eq!(trim_owned("  x y \n"), "x y");
    assert_eq!(trim_owned("\u{2003}z\u{2028}"), "z");
    assert_eq!(trim_owned("plain"), "plain");
}

#[test]
fn status_keys_of_add_menu() {
    assert_eq!(TaskStatus::from_choice('1'), Some(TaskStatus::Pending));
    assert_eq!(TaskStatus::from_choice('2'), Some(TaskStatus::Complete));
    assert_eq!(TaskStatus::from_choice('3'), Some(TaskStatus::InProgress));
    assert_eq!(TaskStatus::from_choice('4'), None);
}

#[test]
fn status_keys_of_edit_menu() {
    assert_eq!(TaskStatus::from_edit_choice('1'), TaskStatus::Pending);
    assert_eq!(TaskStatus::from_edit_choice('2'), TaskStatus::Complete);
    assert_eq!(TaskStatus::from_edit_choice('3'), TaskStatus::InProgress);
    assert_eq!(TaskStatus::from_edit_choice('4'), TaskStatus::Nth);
    assert_eq!(TaskStatus::from_edit_choice('x'), TaskStatus::Nth);
}

#[test]
fn edit_without_changes() {
    assert!(edit_changes_nothing("", TaskStatus::Nth));
    assert!(!edit_changes_nothing("a", TaskStatus::Nth));
    assert!(!edit_changes_nothing("", TaskStatus::Pending));
}

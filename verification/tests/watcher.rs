use tda::{on_file_checked, EditStatus, WatchAction};

#[test]
fn unchanged_file_needs_nothing() {
    assert_eq!(on_file_checked(false, None), WatchAction::Nothing);
    assert_eq!(on_file_checked(false, Some(EditStatus::Unauthorized)), WatchAction::Nothing);
    assert_eq!(on_file_checked(false, Some(EditStatus::Authorized)), WatchAction::Nothing);
}

#[test]
fn announced_change_is_acknowledged() {
    assert_eq!(on_file_checked(true, Some(EditStatus::Authorized)), WatchAction::Acknowledge);
}

#[test]
fn unannounced_change_warns() {
    assert_eq!(on_file_checked(true, None), WatchAction::Warn);
    assert_eq!(on_file_checked(true, Some(EditStatus::Unauthorized)), WatchAction::Warn);
}

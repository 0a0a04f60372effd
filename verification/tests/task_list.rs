use tda::{BaseTasks, TaskStatus};

fn list(items: &[(u16, &str, TaskStatus)]) -> BaseTasks {
    BaseTasks {
        alltasks: items.iter().map(|(i, n, s)| (*i, n.to_string(), *s)).collect(),
    }
}

fn ids(b: &BaseTasks) -> Vec<u16> {
    b.alltasks.iter().map(|t| t.0).collect()
}

#[test]
fn init_is_empty() {
    let b = BaseTasks::init();
    assert!(b.alltasks.is_empty());
}

#[test]
fn read_tasks_of_fresh_list_is_empty() {
    let tasks = BaseTasks::read_tasks(Some(BaseTasks::init()));
    assert!(tasks.is_empty());
}

#[test]
fn read_tasks_returns_parsed_tasks() {
    let b = list(&[(3, "a", TaskStatus::Pending), (1, "b", TaskStatus::Complete)]);
    let tasks = BaseTasks::read_tasks(Some(b));
    assert_eq!(tasks, vec![(3, "a".to_string(), TaskStatus::Pending), (1, "b".to_string(), TaskStatus::Complete)]);
}

#[test]
fn read_tasks_of_unreadable_file_is_empty() {
    assert!(BaseTasks::read_tasks(None).is_empty());
}

#[test]
fn first_ids_count_up_from_one() {
    let mut b = BaseTasks::init();
    assert_eq!(b.add_task("one".to_string(), TaskStatus::Pending), 1);
    assert_eq!(b.add_task("two".to_string(), TaskStatus::Complete), 2);
    assert_eq!(b.add_task("three".to_string(), TaskStatus::InProgress), 3);
    assert_eq!(ids(&b), vec![1, 2, 3]);
}

#[test]
fn add_fills_the_smallest_gap() {
    let mut b = list(&[(5, "e", TaskStatus::Pending), (1, "a", TaskStatus::Pending), (3, "c", TaskStatus::Pending), (2, "b", TaskStatus::Pending)]);
    assert_eq!(b.next_task_id(), 4);
    assert_eq!(b.add_task("d".to_string(), TaskStatus::Pending), 4);
    assert_eq!(b.add_task("f".to_string(), TaskStatus::Pending), 6);
    assert_eq!(ids(&b), vec![5, 1, 3, 2, 4, 6]);
}

#[test]
fn add_ignores_id_zero_and_duplicates() {
    let b = list(&[(0, "z", TaskStatus::Pending), (1, "a", TaskStatus::Pending), (1, "a2", TaskStatus::Pending), (7, "g", TaskStatus::Pending)]);
    assert_eq!(b.next_task_id(), 2);
    let c = list(&[(2, "b", TaskStatus::Pending)]);
    assert_eq!(c.next_task_id(), 1);
}

#[test]
fn add_trims_the_name_and_keeps_the_status() {
    let mut b = BaseTasks::init();
    let id = b.add_task("  buy milk \n".to_string(), TaskStatus::InProgress);
    assert_eq!(b.alltasks, vec![(id, "buy milk".to_string(), TaskStatus::InProgress)]);
}

#[test]
fn add_near_the_top_of_the_id_range() {
    let mut b = list(&[(65534, "x", TaskStatus::Pending)]);
    b.alltasks = (1..=65534u16).map(|i| (i, String::new(), TaskStatus::Pending)).collect();
    assert_eq!(b.add_task("last".to_string(), TaskStatus::Pending), 65535);
}

#[test]
fn check_id_finds_present_ids_only() {
    let b = list(&[(4, "d", TaskStatus::Pending), (9, "i", TaskStatus::Complete)]);
    assert!(BaseTasks::check_id(4, &b.alltasks));
    assert!(BaseTasks::check_id(9, &b.alltasks));
    assert!(!BaseTasks::check_id(5, &b.alltasks));
    assert!(!BaseTasks::check_id(0, &[]));
}

#[test]
fn remove_takes_out_the_task() {
    let mut b = list(&[(1, "a", TaskStatus::Pending), (2, "b", TaskStatus::Complete), (3, "c", TaskStatus::Pending)]);
    assert!(b.remove_task(2));
    assert_eq!(ids(&b), vec![1, 3]);
    assert!(!BaseTasks::check_id(2, &b.alltasks));
}

#[test]
fn remove_of_missing_id_changes_nothing() {
    let mut b = list(&[(1, "a", TaskStatus::Pending)]);
    assert!(!b.remove_task(8));
    assert_eq!(b.alltasks, vec![(1, "a".to_string(), TaskStatus::Pending)]);
}

#[test]
fn remove_takes_only_the_first_of_duplicates() {
    let mut b = list(&[(1, "a", TaskStatus::Pending), (1, "b", TaskStatus::Complete)]);
    assert!(b.remove_task(1));
    assert_eq!(b.alltasks, vec![(1, "b".to_string(), TaskStatus::Complete)]);
}

#[test]
fn remove_undoes_add() {
    let mut b = list(&[(2, "b", TaskStatus::Pending), (1, "a", TaskStatus::Complete)]);
    let before = b.alltasks.clone();
    let id = b.add_task("new".to_string(), TaskStatus::InProgress);
    assert_eq!(id, 3);
    assert!(b.remove_task(id));
    assert_eq!(b.alltasks, before);
}

#[test]
fn edit_sets_name_and_status() {
    let mut b = list(&[(1, "a", TaskStatus::Pending), (2, "b", TaskStatus::Pending)]);
    assert!(b.edit_task(2, "bee".to_string(), TaskStatus::Complete));
    assert_eq!(b.alltasks, vec![(1, "a".to_string(), TaskStatus::Pending), (2, "bee".to_string(), TaskStatus::Complete)]);
}

#[test]
fn edit_with_nth_keeps_status() {
    let mut b = list(&[(1, "a", TaskStatus::InProgress)]);
    assert!(b.edit_task(1, "renamed".to_string(), TaskStatus::Nth));
    assert_eq!(b.alltasks, vec![(1, "renamed".to_string(), TaskStatus::InProgress)]);
}

#[test]
fn edit_with_empty_name_clears_name() {
    let mut b = list(&[(1, "a", TaskStatus::InProgress)]);
    assert!(b.edit_task(1, String::new(), TaskStatus::Complete));
    assert_eq!(b.alltasks, vec![(1, String::new(), TaskStatus::Complete)]);
}

#[test]
fn edit_of_missing_id_changes_nothing() {
    let mut b = list(&[(1, "a", TaskStatus::Pending)]);
    assert!(!b.edit_task(3, "x".to_string(), TaskStatus::Complete));
    assert_eq!(b.alltasks, vec![(1, "a".to_string(), TaskStatus::Pending)]);
}

#[test]
fn edit_changes_every_task_with_the_id() {
    let mut b = list(&[(1, "a", TaskStatus::Pending), (1, "b", TaskStatus::Complete), (2, "c", TaskStatus::Pending)]);
    assert!(b.edit_task(1, "z".to_string(), TaskStatus::Nth));
    assert_eq!(
        b.alltasks,
        vec![(1, "z".to_string(), TaskStatus::Pending), (1, "z".to_string(), TaskStatus::Complete), (2, "c".to_string(), TaskStatus::Pending)]
    );
}

#[test]
fn listing_by_status_keeps_order() {
    let b = list(&[
        (1, "a", TaskStatus::Pending),
        (2, "b", TaskStatus::Complete),
        (3, "c", TaskStatus::Pending),
        (4, "d", TaskStatus::InProgress),
    ]);
    assert_eq!(
        b.tasks_with_status(TaskStatus::Pending),
        vec![(1, "a".to_string(), TaskStatus::Pending), (3, "c".to_string(), TaskStatus::Pending)]
    );
    assert_eq!(b.tasks_with_status(TaskStatus::InProgress), vec![(4, "d".to_string(), TaskStatus::InProgress)]);
    assert!(b.tasks_with_status(TaskStatus::Nth).is_empty());
    let total = b.tasks_with_status(TaskStatus::Pending).len()
        + b.tasks_with_status(TaskStatus::Complete).len()
        + b.tasks_with_status(TaskStatus::InProgress).len();
    assert_eq!(total, 4);
}

use std::path::PathBuf;
use tasks::{Priority, Task, TaskError, TaskManager};

fn store() -> TaskManager {
    TaskManager::new(PathBuf::from("tasks.json"))
}

fn ids(m: &TaskManager) -> Vec<usize> {
    m.tasks().iter().map(|t| t.get_id()).collect()
}

fn descriptions(m: &TaskManager) -> Vec<String> {
    m.tasks().iter().map(|t| t.get_description().to_string()).collect()
}

#[test]
fn new_store_is_empty() {
    let m = store();
    assert!(m.tasks().is_empty());
    assert_eq!(m.next_available_id(), 1);
    assert_eq!(m.file_path(), &PathBuf::from("tasks.json"));
}

#[test]
fn add_ids_increase_across_deletes() {
    let mut m = store();
    let a = m.add_task("a".to_string());
    let b = m.add_task("b".to_string());
    assert!(m.delete_task(b).is_ok());
    let c = m.add_task("c".to_string());
    assert!(m.delete_task(a).is_ok());
    assert!(m.delete_task(c).is_ok());
    let d = m.add_task("d".to_string());
    assert_eq!((a, b, c, d), (1, 2, 3, 4));
    assert_eq!(ids(&m), vec![4]);
}

#[test]
fn add_then_complete_keeps_description() {
    let mut m = store();
    let id = m.add_task("X".to_string());
    assert_eq!(m.complete_task(id), Ok("Completed Task: X".to_string()));
    let t = m.at(id).unwrap();
    assert!(t.get_completed());
    assert_eq!(t.get_description(), "X");
    assert_eq!(t.priority(), Priority::Medium);
}

#[test]
fn complete_missing_id_fails() {
    let mut m = store();
    m.add_task("a".to_string());
    assert_eq!(m.complete_task(7), Err(TaskError::TaskNotFound(7)));
    assert!(!m.at(1).unwrap().get_completed());
}

#[test]
fn priority_changes_saturate() {
    let mut m = store();
    let id = m.add_task("a".to_string());
    assert_eq!(m.prioritize_task(id), Ok("Prioritized Task: a".to_string()));
    assert_eq!(m.change_priority(id, true), Ok("Prioritized Task: a".to_string()));
    assert_eq!(m.at(id).unwrap().priority(), Priority::High);
    assert_eq!(m.deprioritize_task(id), Ok("Deprioritized Task: a".to_string()));
    assert_eq!(m.change_priority(id, false), Ok("Deprioritized Task: a".to_string()));
    assert_eq!(m.change_priority(id, false), Ok("Deprioritized Task: a".to_string()));
    assert_eq!(m.at(id).unwrap().priority(), Priority::Low);
    assert_eq!(m.change_priority(99, true), Err(TaskError::TaskNotFound(99)));
}

#[test]
fn delete_missing_id_leaves_store() {
    let mut m = store();
    m.add_task("a".to_string());
    m.add_task("b".to_string());
    assert_eq!(m.delete_task(5), Err(TaskError::TaskNotFound(5)));
    assert_eq!(ids(&m), vec![1, 2]);
    assert_eq!(m.next_available_id(), 3);
}

#[test]
fn delete_by_id_not_position() {
    let mut m = store();
    for d in ["a", "b", "c", "d", "e", "f", "g", "h", "i", "j", "k", "l"] {
        m.add_task(d.to_string());
    }
    assert!(m.delete_task(1).is_ok());
    assert_eq!(m.delete_task(12), Ok("Deleted task ID 12\n\t'l'".to_string()));
    assert_eq!(m.find_id(3), Some(1));
    assert_eq!(m.find_id(1), None);
    assert_eq!(ids(&m), vec![2, 3, 4, 5, 6, 7, 8, 9, 10, 11]);
}

#[test]
fn clear_completed_keeps_order_of_rest() {
    let mut m = store();
    let a = m.add_task("A".to_string());
    m.add_task("B".to_string());
    let c = m.add_task("C".to_string());
    m.complete_task(a).unwrap();
    m.complete_task(c).unwrap();
    assert_eq!(m.clear_completed_tasks(), 2);
    assert_eq!(descriptions(&m), vec!["B".to_string()]);
    assert_eq!(ids(&m), vec![2]);
    assert_eq!(m.clear_completed_tasks(), 0);
    assert_eq!(m.next_available_id(), 4);
}

#[test]
fn rename_changes_description() {
    let mut m = store();
    let id = m.add_task("a".to_string());
    assert_eq!(
        m.change_description(id, "b".to_string()),
        Ok("Description of task 1 changed.\n\tOld: \"a\"\n\tNew: \"b\"".to_string())
    );
    assert_eq!(m.at(id).unwrap().get_description(), "b");
}

#[test]
fn rename_to_empty_is_rejected() {
    let mut m = store();
    let id = m.add_task("keep".to_string());
    assert_eq!(
        m.change_description(id, "".to_string()),
        Err(TaskError::Empty("Description".to_string()))
    );
    assert_eq!(
        m.change_description(id, "  ".to_string()),
        Err(TaskError::Empty("Description".to_string()))
    );
    assert_eq!(m.at(id).unwrap().get_description(), "keep");
    assert_eq!(m.change_description(3, "x".to_string()), Err(TaskError::TaskNotFound(3)));
}

#[test]
fn load_nothing_gives_empty_store() {
    let mut m = store();
    m.add_task("a".to_string());
    assert_eq!(m.load_tasks(None), Ok(()));
    assert!(m.tasks().is_empty());
    assert_eq!(m.next_available_id(), 1);
    assert_eq!(m.add_task("b".to_string()), 1);
}

#[test]
fn load_numbers_legacy_records() {
    let mut m = store();
    let records = vec![
        Task::from_parts(0, "old one".to_string(), false, Priority::Medium),
        Task::from_parts(5, "five".to_string(), true, Priority::High),
        Task::from_parts(0, "old two".to_string(), false, Priority::Low),
        Task::from_parts(2, "two".to_string(), false, Priority::Medium),
    ];
    assert_eq!(m.load_tasks(Some(records)), Ok(()));
    assert_eq!(ids(&m), vec![6, 5, 7, 2]);
    assert_eq!(m.next_available_id(), 8);
    assert_eq!(m.add_task("new".to_string()), 8);
    assert_eq!(m.at(7).unwrap().get_description(), "old two");
    assert_eq!(m.at(7).unwrap().priority(), Priority::Low);
}

#[test]
fn load_all_legacy_records_counts_from_one() {
    let mut m = store();
    let records = vec![
        Task::from_parts(0, "a".to_string(), false, Priority::Medium),
        Task::from_parts(0, "b".to_string(), false, Priority::Medium),
    ];
    assert_eq!(m.load_tasks(Some(records)), Ok(()));
    assert_eq!(ids(&m), vec![1, 2]);
    assert_eq!(m.next_available_id(), 3);
}

#[test]
fn load_rejects_repeated_ids() {
    let mut m = store();
    m.add_task("kept".to_string());
    let records = vec![
        Task::from_parts(3, "a".to_string(), false, Priority::Medium),
        Task::from_parts(3, "b".to_string(), false, Priority::Medium),
    ];
    assert!(matches!(m.load_tasks(Some(records)), Err(TaskError::Json(_))));
    assert_eq!(descriptions(&m), vec!["kept".to_string()]);
}

#[test]
fn load_rejects_ids_that_run_out() {
    let mut m = store();
    let records = vec![
        Task::from_parts(usize::MAX - 1, "a".to_string(), false, Priority::Medium),
        Task::from_parts(0, "b".to_string(), false, Priority::Medium),
    ];
    assert!(matches!(m.load_tasks(Some(records)), Err(TaskError::Json(_))));
    assert!(m.tasks().is_empty());
}

#[test]
fn reload_keeps_tasks() {
    let mut m = store();
    m.add_task("a".to_string());
    let b = m.add_task("b".to_string());
    m.add_task("c".to_string());
    m.complete_task(b).unwrap();
    m.prioritize_task(b).unwrap();
    m.delete_task(3).unwrap();
    let saved: Vec<Task> = m.tasks().iter().map(|t| t.duplicate()).collect();
    let mut again = store();
    assert_eq!(again.load_tasks(Some(saved)), Ok(()));
    assert_eq!(ids(&again), ids(&m));
    assert_eq!(descriptions(&again), descriptions(&m));
    let t = again.at(b).unwrap();
    assert!(t.get_completed());
    assert_eq!(t.priority(), Priority::High);
    assert_eq!(again.next_available_id(), 3);
}

#[test]
fn at_mut_changes_in_place() {
    let mut m = store();
    let id = m.add_task("a".to_string());
    m.at_mut(id).unwrap().set_description("z".to_string());
    assert_eq!(m.at(id).unwrap().get_description(), "z");
    assert!(m.at_mut(42).is_none());
}

#[test]
fn id_width_grows_with_counter() {
    let mut m = store();
    assert_eq!(m.id_width(), 2);
    for _ in 0..10 {
        m.add_task("t".to_string());
    }
    assert_eq!(m.id_width(), 3);
}

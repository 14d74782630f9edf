use tasks::task::default_task_id;
use tasks::{Priority, Task};

#[test]
fn new_task_starts_open() {
    let t = Task::new_task("water plants".to_string(), 4, Priority::High);
    assert_eq!(t.get_id(), 4);
    assert_eq!(t.get_description(), "water plants");
    assert!(!t.get_completed());
    assert_eq!(t.priority(), Priority::High);
}

#[test]
fn prio_up_steps_and_saturates() {
    let mut t = Task::new_task("a".to_string(), 1, Priority::Low);
    t.prio_up();
    assert_eq!(t.priority(), Priority::Medium);
    t.prio_up();
    assert_eq!(t.priority(), Priority::High);
    t.prio_up();
    assert_eq!(t.priority(), Priority::High);
}

#[test]
fn prio_down_steps_and_saturates() {
    let mut t = Task::new_task("a".to_string(), 1, Priority::High);
    t.prio_down();
    assert_eq!(t.priority(), Priority::Medium);
    t.prio_down();
    assert_eq!(t.priority(), Priority::Low);
    t.prio_down();
    assert_eq!(t.priority(), Priority::Low);
}

#[test]
fn mark_completed_is_idempotent() {
    let mut t = Task::new_task("a".to_string(), 1, Priority::Medium);
    t.mark_completed();
    assert!(t.get_completed());
    t.mark_completed();
    assert!(t.get_completed());
    assert_eq!(t.get_description(), "a");
}

#[test]
fn status_and_symbols() {
    let mut t = Task::new_task("a".to_string(), 1, Priority::Medium);
    assert_eq!(t.get_status(), "[\u{b7}]");
    t.mark_completed();
    assert_eq!(t.get_status(), "[\u{2713}]");
    assert_eq!(Priority::Low.symbol(), "▼");
    assert_eq!(Priority::Medium.symbol(), "◆");
    assert_eq!(Priority::High.symbol(), "▲");
}

#[test]
fn defaults_for_old_records() {
    assert_eq!(Priority::default(), Priority::Medium);
    assert_eq!(default_task_id(), 0);
}

#[test]
fn setters_replace_fields() {
    let mut t = Task::from_parts(0, "old".to_string(), true, Priority::Low);
    t.set_id(9);
    t.set_description("new".to_string());
    assert_eq!(t.get_id(), 9);
    assert_eq!(t.get_description(), "new");
    assert!(t.get_completed());
    assert_eq!(t.priority(), Priority::Low);
    let c = t.duplicate();
    assert_eq!(c.get_id(), 9);
    assert_eq!(c.get_description(), "new");
}

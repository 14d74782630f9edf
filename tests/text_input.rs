use tasks::text::{blank, build_description, is_space_char, join_words, trim};
use tasks::TaskError;

fn words(ws: &[&str]) -> Vec<String> {
    ws.iter().map(|w| w.to_string()).collect()
}

#[test]
fn trim_removes_outer_space_only() {
    assert_eq!(trim("  buy  milk \t\n"), "buy  milk");
    assert_eq!(trim("\u{3000}x\u{a0}"), "x");
    assert_eq!(trim("   "), "");
    assert_eq!(trim(""), "");
}

#[test]
fn blank_detects_white_space() {
    assert!(blank(""));
    assert!(blank(" \t\r\n"));
    assert!(!blank(" a "));
    assert!(is_space_char('\u{2028}'));
    assert!(!is_space_char('x'));
}

#[test]
fn join_words_uses_single_spaces() {
    assert_eq!(join_words(&words(&["buy", "fresh", "milk"])), "buy fresh milk");
    assert_eq!(join_words(&words(&["one"])), "one");
    assert_eq!(join_words(&words(&[])), "");
}

#[test]
fn build_description_joins_and_trims() {
    assert_eq!(build_description(&words(&[" call", "mom "])), Ok("call mom".to_string()));
}

#[test]
fn build_description_rejects_blank() {
    assert_eq!(
        build_description(&words(&[" ", ""])),
        Err(TaskError::Empty("Description".to_string()))
    );
    assert_eq!(build_description(&words(&[])), Err(TaskError::Empty("Description".to_string())));
}

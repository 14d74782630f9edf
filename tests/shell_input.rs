use tasks::command::{parse_command, parse_id, read_command, same_text, split_words, Command};
use tasks::TaskError;

#[test]
fn split_words_drops_all_white_space() {
    assert_eq!(
        split_words("  add  buy\tmilk \n"),
        vec!["add".to_string(), "buy".to_string(), "milk".to_string()]
    );
    assert!(split_words(" \t ").is_empty());
    assert!(split_words("").is_empty());
    assert_eq!(split_words("one"), vec!["one".to_string()]);
}

#[test]
fn parse_command_knows_aliases() {
    assert_eq!(parse_command("l"), Command::List);
    assert_eq!(parse_command("list"), Command::List);
    assert_eq!(parse_command("a"), Command::Add);
    assert_eq!(parse_command("complete"), Command::Complete);
    assert_eq!(parse_command("+"), Command::Up);
    assert_eq!(parse_command("down"), Command::Down);
    assert_eq!(parse_command("d"), Command::Delete);
    assert_eq!(parse_command("ch"), Command::Change);
    assert_eq!(parse_command("clr"), Command::Clear);
    assert_eq!(parse_command("?"), Command::Help);
    assert_eq!(parse_command("x"), Command::Quit);
    assert_eq!(parse_command("exit"), Command::Quit);
    assert_eq!(parse_command("lists"), Command::Unknown);
    assert_eq!(parse_command(""), Command::Unknown);
}

#[test]
fn read_command_lowers_first_word_only() {
    let (cmd, args) = read_command("  ADD Buy Milk ").unwrap();
    assert_eq!(cmd, Command::Add);
    assert_eq!(args, vec!["Buy".to_string(), "Milk".to_string()]);
    let (cmd, args) = read_command("Q").unwrap();
    assert_eq!(cmd, Command::Quit);
    assert!(args.is_empty());
    assert!(read_command("   ").is_none());
}

#[test]
fn parse_id_reads_unsigned_numbers() {
    assert_eq!(parse_id("42"), Ok(42));
    assert_eq!(parse_id("+7"), Ok(7));
    assert_eq!(parse_id("007"), Ok(7));
    assert_eq!(parse_id("18446744073709551615"), Ok(usize::MAX));
}

#[test]
fn parse_id_rejects_other_text() {
    let wrong = |s: &str| Err(TaskError::ArgumentMismatch(format!("wrong argument: '{}' is not a valid task ID.", s)));
    assert_eq!(parse_id("abc"), wrong("abc"));
    assert_eq!(parse_id(""), wrong(""));
    assert_eq!(parse_id("+"), wrong("+"));
    assert_eq!(parse_id("-1"), wrong("-1"));
    assert_eq!(parse_id("1 2"), wrong("1 2"));
    assert_eq!(parse_id("18446744073709551616"), wrong("18446744073709551616"));
}

#[test]
fn same_text_compares_characters() {
    assert!(same_text("abc", "abc"));
    assert!(!same_text("abc", "abd"));
    assert!(!same_text("ab", "abc"));
}

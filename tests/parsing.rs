use rustirc::command::{parse_command, Command};
use rustirc::protocol::{relay_line, welcome_line};
use rustirc::text::{has_prefix, marker_position, strip_line_ending, trim, word_at_start};

fn nick(line: &str) -> Option<String> {
    match parse_command(line) {
        Command::Nick(n) => Some(n),
        _ => None,
    }
}

fn user(line: &str) -> Option<String> {
    match parse_command(line) {
        Command::User(u) => Some(u),
        _ => None,
    }
}

fn body(line: &str) -> Option<String> {
    match parse_command(line) {
        Command::Privmsg(b) => Some(b),
        _ => None,
    }
}

#[test]
fn nick_is_rest_of_line_trimmed() {
    assert_eq!(nick("NICK alice").as_deref(), Some("alice"));
    assert_eq!(nick("NICK   bob  \r\n").as_deref(), Some("bob"));
    assert_eq!(nick("NICK two words\n").as_deref(), Some("two words"));
}

#[test]
fn empty_nick_remainder_sets_empty_name() {
    assert_eq!(nick("NICK \r\n").as_deref(), Some(""));
    assert_eq!(nick("NICK ").as_deref(), Some(""));
    assert_eq!(nick("NICK \t \n").as_deref(), Some(""));
    assert!(matches!(parse_command("NICK"), Command::Unrecognized));
    assert!(matches!(parse_command("NICK\r\n"), Command::Unrecognized));
}

#[test]
fn user_takes_second_word() {
    assert_eq!(user("USER aliceuser realname").as_deref(), Some("aliceuser"));
    assert_eq!(user("USER   bob\t0 * :Real Name\r\n").as_deref(), Some("bob"));
    assert_eq!(user("USER solo").as_deref(), Some("solo"));
}

#[test]
fn user_without_second_word_is_ignored() {
    assert!(matches!(parse_command("USER "), Command::Unrecognized));
    assert!(matches!(parse_command("USER   \r\n"), Command::Unrecognized));
}

#[test]
fn privmsg_body_follows_first_marker() {
    assert_eq!(body("PRIVMSG #chan :hello").as_deref(), Some("hello"));
    assert_eq!(body("PRIVMSG x :a :b  c\r\n").as_deref(), Some("a :b  c"));
    assert_eq!(body("PRIVMSG x :").as_deref(), Some(""));
}

#[test]
fn privmsg_body_is_verbatim() {
    assert_eq!(body("PRIVMSG x :hi ").as_deref(), Some("hi "));
    assert_eq!(body("PRIVMSG x :hi \r\n").as_deref(), Some("hi "));
    assert_eq!(body("PRIVMSG x :\tpadded  \n").as_deref(), Some("\tpadded  "));
}

#[test]
fn privmsg_without_marker_is_ignored() {
    assert!(matches!(parse_command("PRIVMSG target hello"), Command::Unrecognized));
}

#[test]
fn other_lines_are_ignored() {
    assert!(matches!(parse_command("PING :server"), Command::Unrecognized));
    assert!(matches!(parse_command("nick alice"), Command::Unrecognized));
    assert!(matches!(parse_command(""), Command::Unrecognized));
    assert!(matches!(parse_command("NICKNAME x"), Command::Unrecognized));
}

#[test]
fn leading_white_space_is_not_a_command() {
    assert!(matches!(parse_command("  \u{3000}NICK carol"), Command::Unrecognized));
    assert!(matches!(parse_command(" PRIVMSG x :hi"), Command::Unrecognized));
}

#[test]
fn text_helpers() {
    assert_eq!(trim(" \t a b \r\n"), "a b");
    assert_eq!(trim("   "), "");
    assert_eq!(word_at_start("abc def"), "abc");
    assert_eq!(word_at_start(" abc"), "");
    assert!(has_prefix("NICK x", "NICK "));
    assert!(!has_prefix("NIC", "NICK "));
    assert_eq!(marker_position("a :b :c"), Some(1));
    assert_eq!(marker_position("a: b"), None);
    assert_eq!(strip_line_ending("ab \r\n"), "ab ");
    assert_eq!(strip_line_ending("ab\n"), "ab");
    assert_eq!(strip_line_ending("ab\r"), "ab\r");
    assert_eq!(strip_line_ending("ab\n\n"), "ab\n");
    assert_eq!(strip_line_ending(""), "");
}

#[test]
fn relay_line_format() {
    assert_eq!(relay_line("alice!aliceuser", "bob", "hello"), ":alice!aliceuser PRIVMSG bob :hello\r\n");
}

#[test]
fn welcome_line_text() {
    assert_eq!(welcome_line(), ":rustirc 001 Welcome to Mous' IRC Server\r\n");
}

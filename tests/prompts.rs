use prive_note::notes::EditChoice;
use prive_note::prompt::{
    edit_choice, login_answer, menu_action, note_name, pick, wants_hint, LoginAnswer, MenuAction,
    NameError, PickError,
};
use prive_note::status::{contains, split_words, username_from_status};
use prive_note::text::{ends_with, eq_ignore_ascii_case, parse_number, trim};

#[test]
fn trim_removes_surrounding_white_space() {
    assert_eq!(trim("  hello world \n"), "hello world");
    assert_eq!(trim("\u{3000}x\u{a0}"), "x");
    assert_eq!(trim(" \t\r\n"), "");
    assert_eq!(trim(""), "");
}

#[test]
fn numbers_parse_within_bound() {
    assert_eq!(parse_number("42", 100), Some(42));
    assert_eq!(parse_number("+7", 100), Some(7));
    assert_eq!(parse_number("007", 100), Some(7));
    assert_eq!(parse_number("101", 100), None);
    assert_eq!(parse_number("", 100), None);
    assert_eq!(parse_number("+", 100), None);
    assert_eq!(parse_number("-1", 100), None);
    assert_eq!(parse_number("1a", 100), None);
    assert_eq!(parse_number("18446744073709551615", u64::MAX), Some(u64::MAX));
    assert_eq!(parse_number("18446744073709551616", u64::MAX), None);
}

#[test]
fn pick_numbers_items_from_one() {
    assert_eq!(pick(" 2\n", 3), Ok(1));
    assert_eq!(pick("1", 1), Ok(0));
    assert_eq!(pick("0", 3), Err(PickError::OutOfRange));
    assert_eq!(pick("4", 3), Err(PickError::OutOfRange));
    assert_eq!(pick("two", 3), Err(PickError::NotANumber));
    assert_eq!(pick("", 0), Err(PickError::NotANumber));
}

#[test]
fn edit_choice_discards_on_anything_else() {
    assert_eq!(edit_choice("1\n"), EditChoice::SaveRemote);
    assert_eq!(edit_choice(" 2 "), EditChoice::SaveLocal);
    assert_eq!(edit_choice("3"), EditChoice::Discard);
    assert_eq!(edit_choice("save"), EditChoice::Discard);
}

#[test]
fn menu_depends_on_login() {
    assert_eq!(menu_action("1", false), MenuAction::Login);
    assert_eq!(menu_action("1", true), MenuAction::CreateNote);
    assert_eq!(menu_action("2", true), MenuAction::ListNotes);
    assert_eq!(menu_action("2", false), MenuAction::InvalidOption);
    assert_eq!(menu_action("3\n", true), MenuAction::DeleteNote);
    assert_eq!(menu_action("4", false), MenuAction::Exit);
    assert_eq!(menu_action("5", true), MenuAction::InvalidOption);
    assert_eq!(menu_action("x", true), MenuAction::NotANumber);
    assert_eq!(menu_action("4294967296", true), MenuAction::NotANumber);
}

#[test]
fn login_answer_ignores_case() {
    assert_eq!(login_answer("YES\n"), LoginAnswer::AlreadyLoggedIn);
    assert_eq!(login_answer(" No "), LoginAnswer::NotLoggedIn);
    assert_eq!(login_answer("maybe"), LoginAnswer::Invalid);
    assert!(wants_hint("Yes\n"));
    assert!(!wants_hint("y"));
    assert!(eq_ignore_ascii_case("AbC", "aBc"));
    assert!(!eq_ignore_ascii_case("ab", "abc"));
}

#[test]
fn empty_note_name_is_refused() {
    assert_eq!(note_name("  \n"), Err(NameError::Empty));
    assert_eq!(note_name(" todo.txt \n"), Ok("todo.txt".to_string()));
}

#[test]
fn suffix_and_infix_checks() {
    assert!(ends_with("a.secured", ".secured"));
    assert!(!ends_with("ed", ".secured"));
    assert!(contains("xx Logged in yy", "Logged in"));
    assert!(!contains("Logged", "Logged in"));
    assert!(contains("abc", ""));
}

#[test]
fn words_split_on_white_space() {
    assert_eq!(split_words("  a bb\tccc  "), vec!["a", "bb", "ccc"]);
    assert!(split_words(" \n ").is_empty());
}

#[test]
fn username_comes_from_account_line() {
    let report = "github.com\n  \u{2713} Logged in to github.com account octo-cat (keyring)\n  - Active account: true\n";
    assert_eq!(username_from_status(report), "octo-cat");
    assert_eq!(username_from_status("not logged in\n"), "");
    assert_eq!(username_from_status("Logged in to github.com account\n"), "");
    assert_eq!(username_from_status(""), "");
}

use vstd::prelude::*;
use crate::notes::EditChoice;
use crate::text::{
    digit_part,
    digits_value,
    eq_ignore_ascii_case,
    is_number_text,
    parse_number,
    same_ignoring_ascii_case,
    trim,
    trimmed,
};

verus! {

/// Whether `t` writes a natural number of at most `max`.
pub open spec fn number_within(t: Seq<char>, max: nat) -> bool {
    is_number_text(t) && digits_value(digit_part(t)) <= max
}

/// Why a line did not pick an item of a numbered list.
#[derive(Clone, Copy, Debug, PartialEq, Eq, Structural)]
pub enum PickError {
    /// The line is not a number.
    NotANumber,
    /// The number is not that of an item.
    OutOfRange,
}

/// The item of a list of `count` items, numbered from 1, that the line
/// `input` picks, as a position counted from 0.
pub fn pick(input: &str, count: usize) -> (r: Result<usize, PickError>)
    ensures
        ({
            let t = trimmed(input@);
            let v = digits_value(digit_part(t));
            match r {
                Ok(i) => number_within(t, usize::MAX as nat) && 1 <= v <= count && i == v - 1,
                Err(PickError::NotANumber) => !number_within(t, usize::MAX as nat),
                Err(PickError::OutOfRange) => number_within(t, usize::MAX as nat) && !(1 <= v
                    <= count),
            }
        }),
{
    let t = trim(input);
    match parse_number(t.as_str(), usize::MAX as u64) {
        None => Err(PickError::NotANumber),
        Some(n) => if 1 <= n && n <= count as u64 {
            Ok((n - 1) as usize)
        } else {
            Err(PickError::OutOfRange)
        },
    }
}

/// The choice that the line `input` makes after an editing session: `1`
/// saves and pushes, `2` saves locally, and anything else discards the
/// plaintext.
pub fn edit_choice(input: &str) -> (r: EditChoice)
    ensures
        ({
            let t = trimmed(input@);
            let v = digits_value(digit_part(t));
            r == if number_within(t, u32::MAX as nat) && v == 1 {
                EditChoice::SaveRemote
            } else if number_within(t, u32::MAX as nat) && v == 2 {
                EditChoice::SaveLocal
            } else {
                EditChoice::Discard
            }
        }),
{
    let t = trim(input);
    match parse_number(t.as_str(), u32::MAX as u64) {
        Some(1) => EditChoice::SaveRemote,
        Some(2) => EditChoice::SaveLocal,
        _ => EditChoice::Discard,
    }
}

/// An entry of the main menu.
#[derive(Clone, Copy, Debug, PartialEq, Eq, Structural)]
pub enum MenuAction {
    Login,
    CreateNote,
    ListNotes,
    DeleteNote,
    Exit,
    /// A number that names no entry offered in this state.
    InvalidOption,
    /// Not a number.
    NotANumber,
}

/// The menu entry that `number` names: before login, 1 logs in; after it, 1
/// creates, 2 lists and 3 deletes notes; 4 exits in either state.
pub open spec fn menu_entry(number: nat, logged_in: bool) -> MenuAction {
    if number == 1 && !logged_in {
        MenuAction::Login
    } else if number == 1 {
        MenuAction::CreateNote
    } else if number == 2 && logged_in {
        MenuAction::ListNotes
    } else if number == 3 && logged_in {
        MenuAction::DeleteNote
    } else if number == 4 {
        MenuAction::Exit
    } else {
        MenuAction::InvalidOption
    }
}

/// The menu entry that the line `input` picks.
pub fn menu_action(input: &str, logged_in: bool) -> (r: MenuAction)
    ensures
        ({
            let t = trimmed(input@);
            r == if number_within(t, u32::MAX as nat) {
                menu_entry(digits_value(digit_part(t)), logged_in)
            } else {
                MenuAction::NotANumber
            }
        }),
{
    let t = trim(input);
    match parse_number(t.as_str(), u32::MAX as u64) {
        None => MenuAction::NotANumber,
        Some(n) => if n == 1 && !logged_in {
            MenuAction::Login
        } else if n == 1 {
            MenuAction::CreateNote
        } else if n == 2 && logged_in {
            MenuAction::ListNotes
        } else if n == 3 && logged_in {
            MenuAction::DeleteNote
        } else if n == 4 {
            MenuAction::Exit
        } else {
            MenuAction::InvalidOption
        },
    }
}

/// The answer to the question whether the user is already logged in.
#[derive(Clone, Copy, Debug, PartialEq, Eq, Structural)]
pub enum LoginAnswer {
    AlreadyLoggedIn,
    NotLoggedIn,
    Invalid,
}

/// Reads `yes` or `no`, in any case and with surrounding white space.
pub fn login_answer(input: &str) -> (r: LoginAnswer)
    ensures
        r == if same_ignoring_ascii_case(trimmed(input@), seq!['y', 'e', 's']) {
            LoginAnswer::AlreadyLoggedIn
        } else if same_ignoring_ascii_case(trimmed(input@), seq!['n', 'o']) {
            LoginAnswer::NotLoggedIn
        } else {
            LoginAnswer::Invalid
        },
{
    proof {
        reveal_strlit("yes");
        reveal_strlit("no");
        assert("yes"@ =~= seq!['y', 'e', 's']);
        assert("no"@ =~= seq!['n', 'o']);
    }
    let t = trim(input);
    if eq_ignore_ascii_case(t.as_str(), "yes") {
        LoginAnswer::AlreadyLoggedIn
    } else if eq_ignore_ascii_case(t.as_str(), "no") {
        LoginAnswer::NotLoggedIn
    } else {
        LoginAnswer::Invalid
    }
}

/// Whether the answer `input` asks to set a password hint: `yes`, in any case.
pub fn wants_hint(input: &str) -> (r: bool)
    ensures
        r == same_ignoring_ascii_case(trimmed(input@), seq!['y', 'e', 's']),
{
    proof {
        reveal_strlit("yes");
        assert("yes"@ =~= seq!['y', 'e', 's']);
    }
    let t = trim(input);
    eq_ignore_ascii_case(t.as_str(), "yes")
}

/// Why a note name was refused.
#[derive(Clone, Copy, Debug, PartialEq, Eq, Structural)]
pub enum NameError {
    /// Nothing but white space was entered.
    Empty,
}

/// The name of a new note: the line without surrounding white space, which
/// must not be empty.
pub fn note_name(input: &str) -> (r: Result<String, NameError>)
    ensures
        match r {
            Ok(n) => n@ == trimmed(input@) && n@.len() > 0,
            Err(NameError::Empty) => trimmed(input@).len() == 0,
        },
{
    let t = trim(input);
    if t.unicode_len() == 0 {
        Err(NameError::Empty)
    } else {
        Ok(t)
    }
}

} // verus!

//! The client's main menu: which entry a librarian's answer picks.
use vstd::prelude::*;
use crate::text::{chars_of, digit_value, is_digit};

verus! {

/// The entries of the client's menu, numbered 0 to 14 in this order.
#[derive(Clone, Copy, Debug, PartialEq, Eq, Structural)]
pub enum MenuChoice {
    Exit,
    AddBook,
    ListBooks,
    BorrowBook,
    ReturnBook,
    RemoveBook,
    EditBook,
    SearchBook,
    AddMember,
    RemoveMember,
    EditMember,
    SearchMember,
    ReserveBook,
    GenerateReport,
    ViewLog,
}

/// The number that an answer of one digit, or of `1` and a digit, writes.
pub open spec fn menu_number(s: Seq<char>) -> Option<int> {
    if s.len() == 1 && is_digit(s[0]) {
        Some(digit_value(s[0]))
    } else if s.len() == 2 && s[0] == '1' && is_digit(s[1]) {
        Some(10 + digit_value(s[1]))
    } else {
        None
    }
}

/// The entry with the number.
pub open spec fn numbered_choice(n: int) -> Option<MenuChoice> {
    if n == 0 {
        Some(MenuChoice::Exit)
    } else if n == 1 {
        Some(MenuChoice::AddBook)
    } else if n == 2 {
        Some(MenuChoice::ListBooks)
    } else if n == 3 {
        Some(MenuChoice::BorrowBook)
    } else if n == 4 {
        Some(MenuChoice::ReturnBook)
    } else if n == 5 {
        Some(MenuChoice::RemoveBook)
    } else if n == 6 {
        Some(MenuChoice::EditBook)
    } else if n == 7 {
        Some(MenuChoice::SearchBook)
    } else if n == 8 {
        Some(MenuChoice::AddMember)
    } else if n == 9 {
        Some(MenuChoice::RemoveMember)
    } else if n == 10 {
        Some(MenuChoice::EditMember)
    } else if n == 11 {
        Some(MenuChoice::SearchMember)
    } else if n == 12 {
        Some(MenuChoice::ReserveBook)
    } else if n == 13 {
        Some(MenuChoice::GenerateReport)
    } else if n == 14 {
        Some(MenuChoice::ViewLog)
    } else {
        None
    }
}

/// The entry that an answer picks: exactly "0" to "14".
pub open spec fn menu_choice_of(s: Seq<char>) -> Option<MenuChoice> {
    match menu_number(s) {
        Some(n) => numbered_choice(n),
        None => None,
    }
}

/// Reads the answer to the menu; `None` for an answer that picks no entry.
pub fn menu_choice(s: &str) -> (choice: Option<MenuChoice>)
    ensures
        choice == menu_choice_of(s@),
{
    let chars = chars_of(s);
    let n: u32 = if chars.len() == 1 && (chars[0] as u32) >= ('0' as u32) && (chars[0] as u32)
        <= ('9' as u32) {
        (chars[0] as u32) - ('0' as u32)
    } else if chars.len() == 2 && chars[0] == '1' && (chars[1] as u32) >= ('0' as u32) && (
    chars[1] as u32) <= ('9' as u32) {
        10 + ((chars[1] as u32) - ('0' as u32))
    } else {
        return None;
    };
    assert(menu_number(s@) == Some(n as int));
    if n == 0 {
        Some(MenuChoice::Exit)
    } else if n == 1 {
        Some(MenuChoice::AddBook)
    } else if n == 2 {
        Some(MenuChoice::ListBooks)
    } else if n == 3 {
        Some(MenuChoice::BorrowBook)
    } else if n == 4 {
        Some(MenuChoice::ReturnBook)
    } else if n == 5 {
        Some(MenuChoice::RemoveBook)
    } else if n == 6 {
        Some(MenuChoice::EditBook)
    } else if n == 7 {
        Some(MenuChoice::SearchBook)
    } else if n == 8 {
        Some(MenuChoice::AddMember)
    } else if n == 9 {
        Some(MenuChoice::RemoveMember)
    } else if n == 10 {
        Some(MenuChoice::EditMember)
    } else if n == 11 {
        Some(MenuChoice::SearchMember)
    } else if n == 12 {
        Some(MenuChoice::ReserveBook)
    } else if n == 13 {
        Some(MenuChoice::GenerateReport)
    } else if n == 14 {
        Some(MenuChoice::ViewLog)
    } else {
        None
    }
}

} // verus!

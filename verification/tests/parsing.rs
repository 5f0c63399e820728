use library::menu::{menu_choice, MenuChoice};
use library::model::Genre;
use library::text::{genre_from_choice, parse_u32, rating_from_choice, text_contains};

#[test]
fn parse_u32_reads_plain_numbers() {
    assert_eq!(parse_u32("42"), Some(42));
    assert_eq!(parse_u32("0"), Some(0));
    assert_eq!(parse_u32("007"), Some(7));
    assert_eq!(parse_u32("4294967295"), Some(u32::MAX));
}

#[test]
fn parse_u32_accepts_a_leading_plus() {
    assert_eq!(parse_u32("+7"), Some(7));
    assert_eq!(parse_u32("+"), None);
    assert_eq!(parse_u32("++7"), None);
}

#[test]
fn parse_u32_refuses_what_is_not_a_u32() {
    assert_eq!(parse_u32(""), None);
    assert_eq!(parse_u32("-1"), None);
    assert_eq!(parse_u32("4294967296"), None);
    assert_eq!(parse_u32("99999999999999999999"), None);
    assert_eq!(parse_u32("12a"), None);
    assert_eq!(parse_u32(" 12"), None);
    assert_eq!(parse_u32("١٢"), None);
}

#[test]
fn parse_u32_agrees_with_std() {
    let inputs = [
        "", "0", "1", "+1", "-0", "+", "-", "10", "0010", "4294967295", "4294967296", "abc",
        "1 ", "+-1", "65536", "123456789012",
    ];
    for s in inputs.iter() {
        assert_eq!(parse_u32(s), s.parse::<u32>().ok(), "input {:?}", s);
    }
}

#[test]
fn text_contains_finds_substrings() {
    assert!(text_contains("The Rust Book", "Rust"));
    assert!(text_contains("The Rust Book", "The Rust Book"));
    assert!(text_contains("anything", ""));
    assert!(text_contains("", ""));
    assert!(!text_contains("", "a"));
    assert!(!text_contains("Rust", "rust"));
    assert!(!text_contains("Ru", "Rust"));
    assert!(text_contains("aaab", "aab"));
}

#[test]
fn text_contains_agrees_with_std() {
    let pairs = [
        ("héllo wörld", "wö"),
        ("héllo wörld", "lo w"),
        ("héllo", "é"),
        ("héllo", "e"),
        ("abcabc", "cab"),
        ("abc", "abcd"),
        ("ümlaut", ""),
    ];
    for (hay, needle) in pairs.iter() {
        assert_eq!(text_contains(hay, needle), hay.contains(needle), "{:?} {:?}", hay, needle);
    }
}

#[test]
fn genre_choices() {
    assert_eq!(genre_from_choice("1"), Some(Genre::Novel));
    assert_eq!(genre_from_choice("2"), Some(Genre::Science));
    assert_eq!(genre_from_choice("3"), Some(Genre::History));
    assert_eq!(genre_from_choice("4"), Some(Genre::Technical));
    assert_eq!(genre_from_choice("5"), Some(Genre::Other));
    assert_eq!(genre_from_choice("6"), None);
    assert_eq!(genre_from_choice("0"), None);
    assert_eq!(genre_from_choice(""), None);
    assert_eq!(genre_from_choice("11"), None);
    assert_eq!(genre_from_choice("+1"), None);
}

#[test]
fn menu_choices() {
    assert_eq!(menu_choice("0"), Some(MenuChoice::Exit));
    assert_eq!(menu_choice("1"), Some(MenuChoice::AddBook));
    assert_eq!(menu_choice("2"), Some(MenuChoice::ListBooks));
    assert_eq!(menu_choice("3"), Some(MenuChoice::BorrowBook));
    assert_eq!(menu_choice("4"), Some(MenuChoice::ReturnBook));
    assert_eq!(menu_choice("5"), Some(MenuChoice::RemoveBook));
    assert_eq!(menu_choice("6"), Some(MenuChoice::EditBook));
    assert_eq!(menu_choice("7"), Some(MenuChoice::SearchBook));
    assert_eq!(menu_choice("8"), Some(MenuChoice::AddMember));
    assert_eq!(menu_choice("9"), Some(MenuChoice::RemoveMember));
    assert_eq!(menu_choice("10"), Some(MenuChoice::EditMember));
    assert_eq!(menu_choice("11"), Some(MenuChoice::SearchMember));
    assert_eq!(menu_choice("12"), Some(MenuChoice::ReserveBook));
    assert_eq!(menu_choice("13"), Some(MenuChoice::GenerateReport));
    assert_eq!(menu_choice("14"), Some(MenuChoice::ViewLog));
}

#[test]
fn menu_refuses_other_answers() {
    assert_eq!(menu_choice("15"), None);
    assert_eq!(menu_choice("01"), None);
    assert_eq!(menu_choice("+1"), None);
    assert_eq!(menu_choice(""), None);
    assert_eq!(menu_choice("x"), None);
    assert_eq!(menu_choice("20"), None);
    assert_eq!(menu_choice("100"), None);
}

#[test]
fn rating_choices() {
    assert_eq!(rating_from_choice("1"), Some(1));
    assert_eq!(rating_from_choice("3"), Some(3));
    assert_eq!(rating_from_choice("5"), Some(5));
    assert_eq!(rating_from_choice("0"), None);
    assert_eq!(rating_from_choice("6"), None);
    assert_eq!(rating_from_choice(""), None);
    assert_eq!(rating_from_choice("+3"), None);
    assert_eq!(rating_from_choice("33"), None);
}

//! What the text functions are for, stated over all inputs: substring search,
//! reading numbers, and reading the answers to the client's prompts.
use vstd::prelude::*;
use crate::menu::{menu_choice_of, MenuChoice};
use crate::model::Genre;
use crate::text::{contains_text, genre_choice, occurs_at, parsed_u32, rating_choice};

verus! {

/// A text is found in any text that holds it between some prefix and suffix.
pub proof fn text_is_found_where_it_stands(before: Seq<char>, part: Seq<char>, after: Seq<char>)
    ensures
        contains_text(before + part + after, part),
{
    let whole = before + part + after;
    assert(whole.subrange(before.len() as int, (before.len() + part.len()) as int) =~= part);
    assert(occurs_at(whole, part, before.len() as int));
}

/// A text that is found stands somewhere in the text searched: at some
/// position the characters that follow are exactly it.
pub proof fn found_text_stands_somewhere(hay: Seq<char>, needle: Seq<char>)
    ensures
        contains_text(hay, needle) ==> exists|k: int|
            0 <= k && k + needle.len() <= hay.len() && #[trigger] hay.subrange(
                k,
                k + needle.len(),
            ) == needle,
{
    if contains_text(hay, needle) {
        let k = choose|k: int| occurs_at(hay, needle, k);
        assert(hay.subrange(k, k + needle.len()) == needle);
    }
}

/// One decimal digit reads as its value.
pub proof fn a_digit_reads_as_its_value(c: char)
    requires
        '0' as u32 <= c as u32 <= '9' as u32,
    ensures
        parsed_u32(seq![c]) == Some((c as u32 - '0' as u32) as u32),
{
    let s = seq![c];
    assert(s.drop_last() =~= Seq::<char>::empty());
    assert(s[0] == c);
    assert(c != '+');
    assert(crate::text::unsigned_digits(s) == s);
    assert(crate::text::all_digits(s));
    assert(crate::text::digits_value(Seq::<char>::empty()) == 0);
    assert(s.last() == c);
    assert(crate::text::digits_value(s) == crate::text::digit_value(c));
}

/// Another digit after a number multiplies it by ten and adds the digit, as
/// long as the result fits in a `u32`; past that nothing is read.
pub proof fn another_digit_shifts_the_number(s: Seq<char>, c: char, v: u32)
    requires
        parsed_u32(s) == Some(v),
        '0' as u32 <= c as u32 <= '9' as u32,
    ensures
        v * 10 + (c as u32 - '0' as u32) <= u32::MAX ==> parsed_u32(s.push(c)) == Some(
            (v * 10 + (c as u32 - '0' as u32)) as u32,
        ),
        v * 10 + (c as u32 - '0' as u32) > u32::MAX ==> parsed_u32(s.push(c)) is None,
{
    let t = s.push(c);
    let d = crate::text::unsigned_digits(s);
    let dt = crate::text::unsigned_digits(t);
    assert(s.len() > 0);
    assert(t[0] == s[0]);
    assert(c != '+');
    if s[0] == '+' {
        assert(dt =~= d.push(c));
    } else {
        assert(dt =~= d.push(c));
    }
    assert(dt.drop_last() =~= d);
    assert(dt.last() == c);
    assert(crate::text::all_digits(dt)) by {
        assert forall|i: int| 0 <= i < dt.len() implies crate::text::is_digit(#[trigger] dt[i]) by {
            if i < d.len() {
                assert(dt[i] == d[i]);
            }
        }
    }
    crate::text::lemma_digits_value_prefix(d, d.len() as int);
    assert(d.take(d.len() as int) =~= d);
    assert(v as int == crate::text::digits_value(d));
    assert(crate::text::digits_value(dt) == crate::text::digits_value(d) * 10
        + crate::text::digit_value(c));
}

/// Nothing is read from an empty text, from a lone `+`, or from a text with a
/// character that is not a digit anywhere but a leading `+`.
pub proof fn only_digits_are_read(s: Seq<char>, i: int)
    ensures
        parsed_u32(Seq::empty()) is None,
        parsed_u32(seq!['+']) is None,
        0 <= i < s.len() && !('0' as u32 <= s[i] as u32 <= '9' as u32) && !(i == 0 && s[i] == '+') ==> parsed_u32(
            s,
        ) is None,
{
    assert(seq!['+'][0] == '+');
    assert(seq!['+'].drop_first() =~= Seq::<char>::empty());
    if 0 <= i < s.len() && !('0' as u32 <= s[i] as u32 <= '9' as u32) && !(i == 0 && s[i] == '+') {
        let d = crate::text::unsigned_digits(s);
        if s.len() > 0 && s[0] == '+' {
            assert(d[i - 1] == s[i]);
            assert(!crate::text::is_digit(d[i - 1]));
        } else {
            assert(d[i] == s[i]);
            assert(!crate::text::is_digit(d[i]));
        }
    }
}

/// A leading `+` before digits changes nothing that is read.
pub proof fn a_leading_plus_changes_nothing(s: Seq<char>)
    requires
        s.len() > 0,
        s[0] != '+',
    ensures
        parsed_u32(seq!['+'] + s) == parsed_u32(s),
{
    let t = seq!['+'] + s;
    assert(t[0] == '+');
    assert(t.drop_first() =~= s);
}

/// The answers to the genre prompt follow its text, "1=Novel, 2=Science,
/// 3=History, 4=Technical, 5=Other"; any answer but one of those characters
/// names no genre.
pub proof fn genre_answers_follow_the_prompt(s: Seq<char>)
    ensures
        genre_choice(seq!['1']) == Some(Genre::Novel),
        genre_choice(seq!['2']) == Some(Genre::Science),
        genre_choice(seq!['3']) == Some(Genre::History),
        genre_choice(seq!['4']) == Some(Genre::Technical),
        genre_choice(seq!['5']) == Some(Genre::Other),
        !(s.len() == 1 && '1' as u32 <= s[0] as u32 <= '5' as u32) ==> genre_choice(s) is None,
{
    assert(seq!['1'][0] == '1' && seq!['2'][0] == '2' && seq!['3'][0] == '3' && seq!['4'][0]
        == '4' && seq!['5'][0] == '5');
    if !(s.len() == 1 && '1' as u32 <= s[0] as u32 <= '5' as u32) {
        if s.len() == 1 {
            assert(s != seq!['1'] && s != seq!['2'] && s != seq!['3'] && s != seq!['4'] && s
                != seq!['5']);
        }
    }
}

/// A rating answer of one digit from 1 to 5 gives that many stars; any other
/// answer gives none.
pub proof fn rating_answers_give_that_many_stars(s: Seq<char>)
    ensures
        s.len() == 1 && '1' as u32 <= s[0] as u32 <= '5' as u32 ==> rating_choice(s) == Some(
            (s[0] as u32 - '0' as u32) as u8,
        ),
        !(s.len() == 1 && '1' as u32 <= s[0] as u32 <= '5' as u32) ==> rating_choice(s) is None,
{
}

/// The menu's answers follow its numbering, from "0. Exit" to "14. View Log";
/// any other answer picks nothing.
pub proof fn menu_answers_follow_the_numbering(s: Seq<char>)
    ensures
        menu_choice_of(seq!['0']) == Some(MenuChoice::Exit),
        menu_choice_of(seq!['1']) == Some(MenuChoice::AddBook),
        menu_choice_of(seq!['2']) == Some(MenuChoice::ListBooks),
        menu_choice_of(seq!['3']) == Some(MenuChoice::BorrowBook),
        menu_choice_of(seq!['4']) == Some(MenuChoice::ReturnBook),
        menu_choice_of(seq!['5']) == Some(MenuChoice::RemoveBook),
        menu_choice_of(seq!['6']) == Some(MenuChoice::EditBook),
        menu_choice_of(seq!['7']) == Some(MenuChoice::SearchBook),
        menu_choice_of(seq!['8']) == Some(MenuChoice::AddMember),
        menu_choice_of(seq!['9']) == Some(MenuChoice::RemoveMember),
        menu_choice_of(seq!['1', '0']) == Some(MenuChoice::EditMember),
        menu_choice_of(seq!['1', '1']) == Some(MenuChoice::SearchMember),
        menu_choice_of(seq!['1', '2']) == Some(MenuChoice::ReserveBook),
        menu_choice_of(seq!['1', '3']) == Some(MenuChoice::GenerateReport),
        menu_choice_of(seq!['1', '4']) == Some(MenuChoice::ViewLog),
        !((s.len() == 1 && '0' as u32 <= s[0] as u32 <= '9' as u32) || (s.len() == 2 && s[0] == '1' && '0' as u32 <= s[1] as u32
            <= '4' as u32)) ==> menu_choice_of(s) is None,
{
    assert(seq!['0'][0] == '0' && seq!['1'][0] == '1' && seq!['2'][0] == '2' && seq!['3'][0]
        == '3' && seq!['4'][0] == '4' && seq!['5'][0] == '5' && seq!['6'][0] == '6'
        && seq!['7'][0] == '7' && seq!['8'][0] == '8' && seq!['9'][0] == '9');
    assert(seq!['1', '0'][0] == '1' && seq!['1', '0'][1] == '0');
    assert(seq!['1', '1'][0] == '1' && seq!['1', '1'][1] == '1');
    assert(seq!['1', '2'][0] == '1' && seq!['1', '2'][1] == '2');
    assert(seq!['1', '3'][0] == '1' && seq!['1', '3'][1] == '3');
    assert(seq!['1', '4'][0] == '1' && seq!['1', '4'][1] == '4');
}

} // verus!

//! Text handling: substring search for catalogue queries, and the parsers
//! that turn what a librarian types into numbers, genres and menu choices.
use vstd::prelude::*;
use crate::model::Genre;

verus! {

/// `needle` occurs in `hay` starting at position `i`.
pub open spec fn occurs_at(hay: Seq<char>, needle: Seq<char>, i: int) -> bool {
    &&& 0 <= i
    &&& i + needle.len() <= hay.len()
    &&& hay.subrange(i, i + needle.len()) == needle
}

/// `needle` occurs somewhere in `hay` (the empty text occurs everywhere).
pub open spec fn contains_text(hay: Seq<char>, needle: Seq<char>) -> bool {
    exists|i: int| occurs_at(hay, needle, i)
}

/// Every text contains itself.
pub proof fn lemma_contains_itself(s: Seq<char>)
    ensures
        contains_text(s, s),
{
    assert(s.subrange(0, s.len() as int) =~= s);
    assert(occurs_at(s, s, 0));
}

/// The characters of a string, in order.
pub fn chars_of(s: &str) -> (chars: Vec<char>)
    ensures
        chars@ == s@,
{
    broadcast use vstd::string::axiom_spec_iter;
    let mut chars: Vec<char> = Vec::new();
    for c in it: s.chars()
        invariant
            it.seq() == s@,
            chars@ == it.seq().take(it.index()),
    {
        assert(it.seq().take(it.index() + 1) =~= chars@.push(c));
        chars.push(c);
    }
    assert(chars@ =~= s@);
    chars
}

fn occurs_at_index(hay: &Vec<char>, needle: &Vec<char>, i: usize) -> (found: bool)
    requires
        i + needle@.len() <= hay@.len(),
    ensures
        found == occurs_at(hay@, needle@, i as int),
{
    let hay_len = hay.len();
    let mut j: usize = 0;
    while j < needle.len()
        invariant
            hay_len == hay@.len(),
            i + needle@.len() <= hay@.len(),
            j <= needle@.len(),
            forall|k: int| 0 <= k < j ==> hay@[i + k] == needle@[k],
        decreases needle@.len() - j,
    {
        if hay[i + j] != needle[j] {
            assert(hay@.subrange(i as int, i + needle@.len())[j as int] != needle@[j as int]);
            return false;
        }
        j = j + 1;
    }
    assert(hay@.subrange(i as int, i + needle@.len()) =~= needle@);
    true
}

/// Whether `needle` occurs in `hay`: the catalogue's search test.
pub fn text_contains(hay: &str, needle: &str) -> (found: bool)
    ensures
        found == contains_text(hay@, needle@),
{
    let h = chars_of(hay);
    let n = chars_of(needle);
    if n.len() > h.len() {
        return false;
    }
    let last: usize = h.len() - n.len();
    let mut i: usize = 0;
    loop
        invariant
            h@ == hay@,
            n@ == needle@,
            last == h@.len() - n@.len(),
            i <= last,
            forall|k: int| 0 <= k < i ==> !occurs_at(hay@, needle@, k),
        decreases last - i,
    {
        if occurs_at_index(&h, &n, i) {
            return true;
        }
        if i == last {
            return false;
        }
        i = i + 1;
    }
}

/// A decimal digit character.
pub open spec fn is_digit(c: char) -> bool {
    '0' as u32 <= c as u32 <= '9' as u32
}

pub open spec fn digit_value(c: char) -> int {
    c as u32 - '0' as u32
}

/// The number that a string of decimal digits denotes.
pub open spec fn digits_value(s: Seq<char>) -> int
    decreases s.len(),
{
    if s.len() == 0 {
        0
    } else {
        digits_value(s.drop_last()) * 10 + digit_value(s.last())
    }
}

pub open spec fn all_digits(s: Seq<char>) -> bool {
    forall|i: int| 0 <= i < s.len() ==> is_digit(#[trigger] s[i])
}

/// The digits of an unsigned number, after an optional leading `+`.
pub open spec fn unsigned_digits(s: Seq<char>) -> Seq<char> {
    if s.len() > 0 && s[0] == '+' {
        s.drop_first()
    } else {
        s
    }
}

/// What reading `s` as a `u32` gives, as Rust's `str::parse::<u32>` reads it:
/// an optional `+`, then one or more decimal digits whose value fits.
pub open spec fn parsed_u32(s: Seq<char>) -> Option<u32> {
    let d = unsigned_digits(s);
    if d.len() > 0 && all_digits(d) && digits_value(d) <= u32::MAX {
        Some(digits_value(d) as u32)
    } else {
        None
    }
}

/// The value of a prefix of digits is between 0 and the value of the whole.
pub proof fn lemma_digits_value_prefix(s: Seq<char>, n: int)
    requires
        0 <= n <= s.len(),
        all_digits(s),
    ensures
        0 <= digits_value(s.take(n)) <= digits_value(s),
    decreases s.len(),
{
    if s.len() > 0 {
        let p = s.drop_last();
        assert(all_digits(p)) by {
            assert forall|i: int| 0 <= i < p.len() implies is_digit(#[trigger] p[i]) by {
                assert(p[i] == s[i]);
            }
        }
        assert(is_digit(s[s.len() - 1]));
        if n == s.len() {
            assert(s.take(n) =~= s);
            lemma_digits_value_prefix(p, n - 1);
        } else {
            lemma_digits_value_prefix(p, n);
            assert(p.take(n) =~= s.take(n));
        }
    }
}

/// Reads a number as `str::parse::<u32>` does; `None` where it fails.
pub fn parse_u32(s: &str) -> (value: Option<u32>)
    ensures
        value == parsed_u32(s@),
{
    let chars = chars_of(s);
    let start: usize = if chars.len() > 0 && chars[0] == '+' { 1 } else { 0 };
    let ghost d = unsigned_digits(s@);
    assert(d =~= chars@.subrange(start as int, chars@.len() as int));
    if start == chars.len() {
        return None;
    }
    let mut acc: u64 = 0;
    let mut i: usize = start;
    while i < chars.len()
        invariant
            chars@ == s@,
            d == unsigned_digits(s@),
            d == chars@.subrange(start as int, chars@.len() as int),
            start <= i <= chars@.len(),
            all_digits(d.take(i - start)),
            acc == digits_value(d.take(i - start)),
            acc <= u32::MAX,
        decreases chars@.len() - i,
    {
        let c = chars[i];
        if !((c as u32) >= ('0' as u32) && (c as u32) <= ('9' as u32)) {
            assert(d[i - start] == c);
            assert(!is_digit(d[i - start]));
            assert(!all_digits(d));
            return None;
        }
        proof {
            assert(d.take(i - start + 1).drop_last() =~= d.take(i - start));
            assert(d.take(i - start + 1).last() == c);
        }
        acc = acc * 10 + ((c as u32) - ('0' as u32)) as u64;
        assert(all_digits(d.take(i - start + 1))) by {
            let t = d.take(i - start + 1);
            assert forall|k: int| 0 <= k < t.len() implies is_digit(#[trigger] t[k]) by {
                if k < i - start {
                    assert(t[k] == d.take(i - start)[k]);
                }
            }
        }
        assert(acc == digits_value(d.take(i - start + 1)));
        if acc > 0xffff_ffffu64 {
            proof {
                if all_digits(d) {
                    lemma_digits_value_prefix(d, i - start + 1);
                }
            }
            return None;
        }
        i = i + 1;
    }
    assert(d.take(i - start) =~= d);
    Some(acc as u32)
}

/// The genre that a menu answer names: "1" to "5".
pub open spec fn genre_choice(s: Seq<char>) -> Option<Genre> {
    if s == seq!['1'] {
        Some(Genre::Novel)
    } else if s == seq!['2'] {
        Some(Genre::Science)
    } else if s == seq!['3'] {
        Some(Genre::History)
    } else if s == seq!['4'] {
        Some(Genre::Technical)
    } else if s == seq!['5'] {
        Some(Genre::Other)
    } else {
        None
    }
}

/// Reads the answer to "Genre (1=Novel, 2=Science, 3=History, 4=Technical,
/// 5=Other)"; `None` for anything else, which the client asks again for.
pub fn genre_from_choice(s: &str) -> (genre: Option<Genre>)
    ensures
        genre == genre_choice(s@),
{
    let chars = chars_of(s);
    if chars.len() != 1 {
        assert(chars@ != seq!['1'] && chars@ != seq!['2'] && chars@ != seq!['3']
            && chars@ != seq!['4'] && chars@ != seq!['5']);
        return None;
    }
    let c = chars[0];
    assert(chars@ =~= seq![c]);
    if c == '1' {
        Some(Genre::Novel)
    } else if c == '2' {
        Some(Genre::Science)
    } else if c == '3' {
        Some(Genre::History)
    } else if c == '4' {
        Some(Genre::Technical)
    } else if c == '5' {
        Some(Genre::Other)
    } else {
        assert(seq!['1'][0] == '1' && seq!['2'][0] == '2' && seq!['3'][0] == '3'
            && seq!['4'][0] == '4' && seq!['5'][0] == '5');
        None
    }
}

/// The score that an answer to "Rating (1-5)" gives: one digit from 1 to 5.
pub open spec fn rating_choice(s: Seq<char>) -> Option<u8> {
    if s.len() == 1 && '1' as u32 <= s[0] as u32 <= '5' as u32 {
        Some((s[0] as u32 - '0' as u32) as u8)
    } else {
        None
    }
}

/// Reads a reader's rating of a book; `None` for anything but "1" to "5",
/// which the client asks again for.
pub fn rating_from_choice(s: &str) -> (score: Option<u8>)
    ensures
        score == rating_choice(s@),
{
    let chars = chars_of(s);
    if chars.len() == 1 && (chars[0] as u32) >= ('1' as u32) && (chars[0] as u32) <= ('5' as u32) {
        Some(((chars[0] as u32) - ('0' as u32)) as u8)
    } else {
        None
    }
}

} // verus!

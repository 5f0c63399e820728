//! The records that the library keeps: books, members, loans,
//! reservations, fines and ratings, each with its mathematical view.
use vstd::prelude::*;

verus! {

/// The shelf a book belongs to.
#[derive(Clone, Copy, Debug, PartialEq, Eq, Structural)]
pub enum Genre {
    Novel,
    Science,
    History,
    Technical,
    Other,
}

/// A book of the catalogue. `is_borrowed` tells whether the copy is lent out;
/// `ratings` holds the stars (1 to 5) that readers gave it.
#[derive(Debug, PartialEq, Eq)]
pub struct Book {
    pub id: u32,
    pub title: String,
    pub author: String,
    pub genre: Genre,
    pub is_borrowed: bool,
    pub ratings: Vec<u8>,
}

/// What a book is, as a mathematical value.
pub struct BookView {
    pub id: u32,
    pub title: Seq<char>,
    pub author: Seq<char>,
    pub genre: Genre,
    pub is_borrowed: bool,
    pub ratings: Seq<u8>,
}

impl View for Book {
    type V = BookView;

    open spec fn view(&self) -> BookView {
        BookView {
            id: self.id,
            title: self.title@,
            author: self.author@,
            genre: self.genre,
            is_borrowed: self.is_borrowed,
            ratings: self.ratings@,
        }
    }
}

/// The sum of a sequence of ratings.
pub open spec fn ratings_sum(ratings: Seq<u8>) -> int
    decreases ratings.len(),
{
    if ratings.len() == 0 {
        0
    } else {
        ratings_sum(ratings.drop_last()) + ratings.last()
    }
}

/// A sum over a prefix never exceeds the sum over the whole sequence.
pub proof fn lemma_ratings_sum_prefix(ratings: Seq<u8>, n: int)
    requires
        0 <= n <= ratings.len(),
    ensures
        0 <= ratings_sum(ratings.take(n)) <= ratings_sum(ratings),
    decreases ratings.len(),
{
    if ratings.len() > 0 {
        if n == ratings.len() {
            assert(ratings.take(n) =~= ratings);
            lemma_ratings_sum_prefix(ratings.drop_last(), n - 1);
            assert(ratings.drop_last().take(n - 1) =~= ratings.drop_last());
        } else {
            lemma_ratings_sum_prefix(ratings.drop_last(), n);
            assert(ratings.drop_last().take(n) =~= ratings.take(n));
        }
    }
}

impl Book {
    /// A new book on the shelf: not lent out, with no ratings yet.
    pub fn new(id: u32, title: String, author: String, genre: Genre) -> (book: Self)
        ensures
            book@ == (BookView {
                id,
                title: title@,
                author: author@,
                genre,
                is_borrowed: false,
                ratings: Seq::<u8>::empty(),
            }),
    {
        Book { id: id, title: title, author: author, genre: genre, is_borrowed: false, ratings: Vec::new() }
    }

    /// The total of the stars that readers gave this book, which the average
    /// rating divides by their number; `None` where the total does not fit in
    /// a `u32`.
    pub fn ratings_total(&self) -> (total: Option<u32>)
        ensures
            total == (if ratings_sum(self.ratings@) <= u32::MAX {
                Some(ratings_sum(self.ratings@) as u32)
            } else {
                None::<u32>
            }),
    {
        let mut total: u64 = 0;
        let mut i: usize = 0;
        while i < self.ratings.len()
            invariant
                i <= self.ratings@.len(),
                total == ratings_sum(self.ratings@.take(i as int)),
                total <= u32::MAX,
            decreases self.ratings@.len() - i,
        {
            proof {
                assert(self.ratings@.take(i + 1).drop_last() =~= self.ratings@.take(i as int));
            }
            total = total + self.ratings[i] as u64;
            if total > 0xffff_ffffu64 {
                proof {
                    lemma_ratings_sum_prefix(self.ratings@, i + 1);
                }
                return None;
            }
            i = i + 1;
        }
        assert(self.ratings@.take(i as int) =~= self.ratings@);
        Some(total as u32)
    }
}

impl Clone for Book {
    /// A copy of the book with the same contents.
    fn clone(&self) -> (copy: Self)
        ensures
            copy@ == self@,
    {
        let ratings = self.ratings.clone();
        assert(ratings@ =~= self.ratings@);
        Book {
            id: self.id,
            title: self.title.clone(),
            author: self.author.clone(),
            genre: self.genre,
            is_borrowed: self.is_borrowed,
            ratings,
        }
    }
}

/// A member of the library.
#[derive(Debug, PartialEq, Eq)]
pub struct Member {
    pub id: u32,
    pub name: String,
    pub borrowed_books: Vec<u32>,
}

/// What a member is, as a mathematical value.
pub struct MemberView {
    pub id: u32,
    pub name: Seq<char>,
    pub borrowed_books: Seq<u32>,
}

impl View for Member {
    type V = MemberView;

    open spec fn view(&self) -> MemberView {
        MemberView { id: self.id, name: self.name@, borrowed_books: self.borrowed_books@ }
    }
}

impl Member {
    /// A new member who has borrowed nothing.
    pub fn new(id: u32, name: String) -> (member: Self)
        ensures
            member@ == (MemberView { id, name: name@, borrowed_books: Seq::<u32>::empty() }),
    {
        Member { id, name, borrowed_books: Vec::new() }
    }
}

impl Clone for Member {
    /// A copy of the member with the same contents.
    fn clone(&self) -> (copy: Self)
        ensures
            copy@ == self@,
    {
        let borrowed_books = self.borrowed_books.clone();
        assert(borrowed_books@ =~= self.borrowed_books@);
        Member { id: self.id, name: self.name.clone(), borrowed_books }
    }
}

/// A loan of a book to a member; dates are seconds since the Unix epoch.
#[derive(Clone, Copy, Debug, PartialEq, Eq, Structural)]
pub struct Loan {
    pub book_id: u32,
    pub member_id: u32,
    pub borrow_date: u64,
    pub due_date: u64,
    pub returned: bool,
}

impl Loan {
    /// A loan that is still open.
    pub fn new(book_id: u32, member_id: u32, borrow_date: u64, due_date: u64) -> (loan: Self)
        ensures
            loan == (Loan { book_id, member_id, borrow_date, due_date, returned: false }),
    {
        Loan { book_id, member_id, borrow_date, due_date, returned: false }
    }
}

/// A member's claim on a book, made at `reservation_date`.
#[derive(Clone, Copy, Debug, PartialEq, Eq, Structural)]
pub struct Reservation {
    pub book_id: u32,
    pub member_id: u32,
    pub reservation_date: u64,
}

impl Reservation {
    pub fn new(book_id: u32, member_id: u32, reservation_date: u64) -> (r: Self)
        ensures
            r == (Reservation { book_id, member_id, reservation_date }),
    {
        Reservation { book_id, member_id, reservation_date }
    }
}

/// A fine for a late return.
#[derive(Clone, Copy, Debug, PartialEq, Eq, Structural)]
pub struct Fine {
    pub member_id: u32,
    pub book_id: u32,
    pub overdue_days: u32,
    pub amount: u32,
    pub paid: bool,
}

impl Fine {
    /// A fine that is not paid yet.
    pub fn new(member_id: u32, book_id: u32, overdue_days: u32, amount: u32) -> (fine: Self)
        ensures
            fine == (Fine { member_id, book_id, overdue_days, amount, paid: false }),
    {
        Fine { member_id, book_id, overdue_days, amount, paid: false }
    }
}

/// A reader's rating of a book, with an optional comment.
#[derive(Clone, Debug, PartialEq, Eq)]
pub struct Rating {
    pub book_id: u32,
    pub member_id: u32,
    pub score: u8,
    pub comment: Option<String>,
}

impl Rating {
    pub fn new(book_id: u32, member_id: u32, score: u8, comment: Option<String>) -> (rating: Self)
        ensures
            rating.book_id == book_id,
            rating.member_id == member_id,
            rating.score == score,
            rating.comment == comment,
    {
        Rating { book_id, member_id, score, comment }
    }
}

} // verus!

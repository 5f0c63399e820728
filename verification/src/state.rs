//! The library's state and the operations that the server performs on it.
//!
//! Each operation is specified by a function of `LibraryModel` that gives the
//! next model and the answer; `LibraryState::handle_request` performs any
//! request as `LibraryModel::step` says.
use vstd::prelude::*;
use crate::model::{Book, BookView, Fine, Genre, Loan, Member, MemberView, Reservation};
use crate::protocol::{
    books_view, members_view, LibraryError, LibraryReport, Request, Response, ResponseView,
};
use crate::text::{contains_text, text_contains};

verus! {

/// Seconds in a day.
pub const SECONDS_PER_DAY: u64 = 86400;

/// How long a loan runs: fourteen days, in seconds.
pub const LOAN_PERIOD_SECONDS: u64 = 14 * 24 * 60 * 60;

/// The fine for each whole day that a book comes back late.
pub const FINE_PER_DAY: u32 = 1000;

/// Everything the library knows.
#[derive(Clone, Debug, PartialEq)]
pub struct LibraryState {
    pub books: Vec<Book>,
    pub members: Vec<Member>,
    pub loans: Vec<Loan>,
    pub reservations: Vec<Reservation>,
    pub fines: Vec<Fine>,
    pub next_book_id: u32,
    pub next_member_id: u32,
}

/// The library's state as a mathematical value.
pub struct LibraryModel {
    pub books: Seq<BookView>,
    pub members: Seq<MemberView>,
    pub loans: Seq<Loan>,
    pub reservations: Seq<Reservation>,
    pub fines: Seq<Fine>,
    pub next_book_id: u32,
    pub next_member_id: u32,
}

impl View for LibraryState {
    type V = LibraryModel;

    open spec fn view(&self) -> LibraryModel {
        LibraryModel {
            books: books_view(self.books@),
            members: members_view(self.members@),
            loans: self.loans@,
            reservations: self.reservations@,
            fines: self.fines@,
            next_book_id: self.next_book_id,
            next_member_id: self.next_member_id,
        }
    }
}

// ---------------------------------------------------------------------------
// Books

/// Some book carries the id.
pub open spec fn has_book(books: Seq<BookView>, id: u32) -> bool {
    exists|i: int| 0 <= i < books.len() && (#[trigger] books[i]).id == id
}

/// Some book with the id is on the shelf.
pub open spec fn has_copy_in(books: Seq<BookView>, id: u32) -> bool {
    exists|i: int| 0 <= i < books.len() && (#[trigger] books[i]).id == id && !books[i].is_borrowed
}

/// Some book with the id is lent out.
pub open spec fn has_copy_out(books: Seq<BookView>, id: u32) -> bool {
    exists|i: int| 0 <= i < books.len() && (#[trigger] books[i]).id == id && books[i].is_borrowed
}

/// Every book with the id that is on the shelf is marked lent out.
pub open spec fn lend_copies(books: Seq<BookView>, id: u32) -> Seq<BookView> {
    Seq::new(
        books.len(),
        |i: int|
            if books[i].id == id && !books[i].is_borrowed {
                BookView { is_borrowed: true, ..books[i] }
            } else {
                books[i]
            },
    )
}

/// The ratings with the reader's score, if one was given, added at the end.
pub open spec fn add_rating(ratings: Seq<u8>, rating: Option<u8>) -> Seq<u8> {
    match rating {
        Some(score) => ratings.push(score),
        None => ratings,
    }
}

/// A score, where one is given, is a number of stars from 1 to 5.
pub open spec fn valid_rating(rating: Option<u8>) -> bool {
    rating matches Some(score) ==> 1 <= score <= 5
}

/// Every book with the id that is lent out is marked back on the shelf, with
/// the reader's score, if one was given, added to its ratings.
pub open spec fn shelve_copies(books: Seq<BookView>, id: u32, rating: Option<u8>) -> Seq<BookView> {
    Seq::new(
        books.len(),
        |i: int|
            if books[i].id == id && books[i].is_borrowed {
                BookView {
                    is_borrowed: false,
                    ratings: add_rating(books[i].ratings, rating),
                    ..books[i]
                }
            } else {
                books[i]
            },
    )
}

/// Every book with the id has the reader's score, if one was given, added to
/// its ratings.
pub open spec fn rate_books(books: Seq<BookView>, id: u32, rating: Option<u8>) -> Seq<BookView> {
    Seq::new(
        books.len(),
        |i: int|
            if books[i].id == id {
                BookView { ratings: add_rating(books[i].ratings, rating), ..books[i] }
            } else {
                books[i]
            },
    )
}

/// Every book with the id gets the new title, author and genre.
pub open spec fn retitle_books(
    books: Seq<BookView>,
    id: u32,
    title: Seq<char>,
    author: Seq<char>,
    genre: Genre,
) -> Seq<BookView> {
    Seq::new(
        books.len(),
        |i: int|
            if books[i].id == id {
                BookView { title, author, genre, ..books[i] }
            } else {
                books[i]
            },
    )
}

/// The position of the last book with the id.
pub open spec fn last_book_index(books: Seq<BookView>, id: u32) -> Option<int>
    decreases books.len(),
{
    if books.len() == 0 {
        None
    } else if books.last().id == id {
        Some(books.len() - 1)
    } else {
        last_book_index(books.drop_last(), id)
    }
}

/// A book answers a query when its title or its author contains it.
pub open spec fn book_matches(book: BookView, query: Seq<char>) -> bool {
    contains_text(book.title, query) || contains_text(book.author, query)
}

/// The books that answer a query, in catalogue order.
pub open spec fn matching_books(books: Seq<BookView>, query: Seq<char>) -> Seq<BookView>
    decreases books.len(),
{
    if books.len() == 0 {
        Seq::empty()
    } else if book_matches(books.last(), query) {
        matching_books(books.drop_last(), query).push(books.last())
    } else {
        matching_books(books.drop_last(), query)
    }
}

// ---------------------------------------------------------------------------
// Members

/// Some member carries the id.
pub open spec fn has_member(members: Seq<MemberView>, id: u32) -> bool {
    exists|i: int| 0 <= i < members.len() && (#[trigger] members[i]).id == id
}

/// Every member with the id gets the new name.
pub open spec fn rename_members(members: Seq<MemberView>, id: u32, name: Seq<char>) -> Seq<
    MemberView,
> {
    Seq::new(
        members.len(),
        |i: int|
            if members[i].id == id {
                MemberView { name, ..members[i] }
            } else {
                members[i]
            },
    )
}

/// The position of the last member with the id.
pub open spec fn last_member_index(members: Seq<MemberView>, id: u32) -> Option<int>
    decreases members.len(),
{
    if members.len() == 0 {
        None
    } else if members.last().id == id {
        Some(members.len() - 1)
    } else {
        last_member_index(members.drop_last(), id)
    }
}

/// The members whose name contains the query, in order.
pub open spec fn matching_members(members: Seq<MemberView>, query: Seq<char>) -> Seq<MemberView>
    decreases members.len(),
{
    if members.len() == 0 {
        Seq::empty()
    } else if contains_text(members.last().name, query) {
        matching_members(members.drop_last(), query).push(members.last())
    } else {
        matching_members(members.drop_last(), query)
    }
}

// ---------------------------------------------------------------------------
// Loans and fines

/// A loan of this book to this member.
pub open spec fn loan_of(loan: Loan, book_id: u32, member_id: u32) -> bool {
    loan.book_id == book_id && loan.member_id == member_id
}

/// Every open loan of the book to the member is marked returned.
pub open spec fn close_loans(loans: Seq<Loan>, book_id: u32, member_id: u32) -> Seq<Loan> {
    Seq::new(
        loans.len(),
        |i: int|
            if loan_of(loans[i], book_id, member_id) && !loans[i].returned {
                Loan { returned: true, ..loans[i] }
            } else {
                loans[i]
            },
    )
}

/// The whole days between the due date and `now`, cut to 32 bits as `as u32` does.
pub open spec fn overdue_days(now: u64, due_date: u64) -> u32 {
    ((now - due_date) / (SECONDS_PER_DAY as int)) as u32
}

/// The fine for a loan of the book to the member that came back at `now`.
pub open spec fn late_fine(loan: Loan, book_id: u32, member_id: u32, now: u64) -> Fine {
    let days = overdue_days(now, loan.due_date);
    Fine {
        member_id,
        book_id,
        overdue_days: days,
        amount: (days * FINE_PER_DAY) as u32,
        paid: false,
    }
}

/// An open loan of the book to the member that is past due at `now`: the
/// return at `now` closes it late.
pub open spec fn closes_late(loan: Loan, book_id: u32, member_id: u32, now: u64) -> bool {
    loan_of(loan, book_id, member_id) && !loan.returned && now > loan.due_date
}

/// The fines for the open loans of the book to the member that a return at
/// `now` closes past their due date, in order.
pub open spec fn late_fines(loans: Seq<Loan>, book_id: u32, member_id: u32, now: u64) -> Seq<Fine>
    decreases loans.len(),
{
    if loans.len() == 0 {
        Seq::empty()
    } else if closes_late(loans.last(), book_id, member_id, now) {
        late_fines(loans.drop_last(), book_id, member_id, now).push(
            late_fine(loans.last(), book_id, member_id, now),
        )
    } else {
        late_fines(loans.drop_last(), book_id, member_id, now)
    }
}

/// Every open loan of the book to the member that is late at `now` has a fine
/// that fits in a `u32`.
pub open spec fn fines_fit(loans: Seq<Loan>, book_id: u32, member_id: u32, now: u64) -> bool {
    forall|i: int|
        0 <= i < loans.len() && closes_late(#[trigger] loans[i], book_id, member_id, now)
            ==> overdue_days(now, loans[i].due_date) * FINE_PER_DAY <= u32::MAX
}

// ---------------------------------------------------------------------------
// The report

/// How many books are lent out.
pub open spec fn count_borrowed(books: Seq<BookView>) -> nat
    decreases books.len(),
{
    if books.len() == 0 {
        0
    } else {
        count_borrowed(books.drop_last()) + if books.last().is_borrowed {
            1nat
        } else {
            0nat
        }
    }
}

/// How many loans are still open.
pub open spec fn count_open_loans(loans: Seq<Loan>) -> nat
    decreases loans.len(),
{
    if loans.len() == 0 {
        0
    } else {
        count_open_loans(loans.drop_last()) + if !loans.last().returned {
            1nat
        } else {
            0nat
        }
    }
}

/// The sum of the amounts of the fines.
pub open spec fn fines_total(fines: Seq<Fine>) -> nat
    decreases fines.len(),
{
    if fines.len() == 0 {
        0
    } else {
        fines_total(fines.drop_last()) + (fines.last().amount as nat)
    }
}

/// No more books are lent out than there are books.
pub proof fn lemma_count_borrowed_bound(books: Seq<BookView>)
    ensures
        count_borrowed(books) <= books.len(),
    decreases books.len(),
{
    if books.len() > 0 {
        lemma_count_borrowed_bound(books.drop_last());
    }
}

/// No more loans are open than there are loans.
pub proof fn lemma_count_open_loans_bound(loans: Seq<Loan>)
    ensures
        count_open_loans(loans) <= loans.len(),
    decreases loans.len(),
{
    if loans.len() > 0 {
        lemma_count_open_loans_bound(loans.drop_last());
    }
}

/// Each fine adds at most `u32::MAX` to the total.
pub proof fn lemma_fines_total_bound(fines: Seq<Fine>)
    ensures
        fines_total(fines) <= fines.len() * (u32::MAX as int),
    decreases fines.len(),
{
    if fines.len() > 0 {
        lemma_fines_total_bound(fines.drop_last());
    }
}

// ---------------------------------------------------------------------------
// The operations

impl LibraryModel {
    /// An empty library whose first ids are 1.
    pub open spec fn initial() -> LibraryModel {
        LibraryModel {
            books: Seq::empty(),
            members: Seq::empty(),
            loans: Seq::empty(),
            reservations: Seq::empty(),
            fines: Seq::empty(),
            next_book_id: 1,
            next_member_id: 1,
        }
    }

    pub open spec fn add_book(self, title: Seq<char>, author: Seq<char>, genre: Genre) -> (
        LibraryModel,
        ResponseView,
    ) {
        let id = self.next_book_id;
        let book = BookView {
            id,
            title,
            author,
            genre,
            is_borrowed: false,
            ratings: Seq::empty(),
        };
        (
            LibraryModel {
                books: self.books.push(book),
                next_book_id: (id + 1) as u32,
                ..self
            },
            ResponseView::BooksAdded { book_id: id },
        )
    }

    pub open spec fn borrow_book(self, book_id: u32, member_id: u32, now: u64) -> (
        LibraryModel,
        ResponseView,
    ) {
        if !has_book(self.books, book_id) {
            (self, ResponseView::Error(LibraryError::BookNotFound { book_id }))
        } else if !has_copy_in(self.books, book_id) {
            (self, ResponseView::Error(LibraryError::BookAlreadyBorrowed))
        } else {
            let loan = Loan {
                book_id,
                member_id,
                borrow_date: now,
                due_date: (now + LOAN_PERIOD_SECONDS) as u64,
                returned: false,
            };
            (
                LibraryModel {
                    books: lend_copies(self.books, book_id),
                    loans: self.loans.push(loan),
                    ..self
                },
                ResponseView::Success,
            )
        }
    }

    pub open spec fn return_book(
        self,
        book_id: u32,
        member_id: u32,
        rating: Option<u8>,
        now: u64,
    ) -> (LibraryModel, ResponseView) {
        if !valid_rating(rating) {
            (self, ResponseView::Error(LibraryError::InvalidRating { score: rating->0 }))
        } else if !has_book(self.books, book_id) {
            (self, ResponseView::Error(LibraryError::BookNotFound { book_id }))
        } else if !has_copy_out(self.books, book_id) {
            (self, ResponseView::Error(LibraryError::BookNotBorrowed))
        } else {
            (
                LibraryModel {
                    books: shelve_copies(self.books, book_id, rating),
                    loans: close_loans(self.loans, book_id, member_id),
                    fines: self.fines + late_fines(self.loans, book_id, member_id, now),
                    ..self
                },
                ResponseView::Success,
            )
        }
    }

    pub open spec fn remove_book(self, book_id: u32) -> (LibraryModel, ResponseView) {
        match last_book_index(self.books, book_id) {
            Some(i) => (LibraryModel { books: self.books.remove(i), ..self }, ResponseView::Success),
            None => (self, ResponseView::Error(LibraryError::BookNotFound { book_id })),
        }
    }

    pub open spec fn edit_book(
        self,
        book_id: u32,
        title: Seq<char>,
        author: Seq<char>,
        genre: Genre,
    ) -> (LibraryModel, ResponseView) {
        if has_book(self.books, book_id) {
            (
                LibraryModel {
                    books: retitle_books(self.books, book_id, title, author, genre),
                    ..self
                },
                ResponseView::Success,
            )
        } else {
            (self, ResponseView::Error(LibraryError::BookNotFound { book_id }))
        }
    }

    pub open spec fn add_member(self, name: Seq<char>) -> (LibraryModel, ResponseView) {
        let id = self.next_member_id;
        let member = MemberView { id, name, borrowed_books: Seq::empty() };
        (
            LibraryModel {
                members: self.members.push(member),
                next_member_id: (id + 1) as u32,
                ..self
            },
            ResponseView::MemberAdded { member_id: id },
        )
    }

    pub open spec fn remove_member(self, member_id: u32) -> (LibraryModel, ResponseView) {
        match last_member_index(self.members, member_id) {
            Some(i) => (
                LibraryModel { members: self.members.remove(i), ..self },
                ResponseView::Success,
            ),
            None => (self, ResponseView::Error(LibraryError::MemberNotFound { member_id })),
        }
    }

    pub open spec fn edit_member(self, member_id: u32, name: Seq<char>) -> (
        LibraryModel,
        ResponseView,
    ) {
        if has_member(self.members, member_id) {
            (
                LibraryModel { members: rename_members(self.members, member_id, name), ..self },
                ResponseView::Success,
            )
        } else {
            (self, ResponseView::Error(LibraryError::MemberNotFound { member_id }))
        }
    }

    pub open spec fn reserve_book(self, book_id: u32, member_id: u32, now: u64) -> (
        LibraryModel,
        ResponseView,
    ) {
        let reservation = Reservation { book_id, member_id, reservation_date: now };
        (
            LibraryModel { reservations: self.reservations.push(reservation), ..self },
            ResponseView::Success,
        )
    }

    /// The snapshot: how many books, how many of them lent out, how many
    /// members, how many open loans, and the sum of all fines.
    pub open spec fn report(self) -> LibraryReport {
        LibraryReport {
            total_books: self.books.len() as u64,
            borrowed_books: count_borrowed(self.books) as u64,
            total_members: self.members.len() as u64,
            active_loans: count_open_loans(self.loans) as u64,
            total_fines: fines_total(self.fines) as u128,
        }
    }

    /// What the server does with a request that arrives at time `now`.
    pub open spec fn step(self, request: Request, now: u64) -> (LibraryModel, ResponseView) {
        match request {
            Request::AddBook { title, author, genre } => self.add_book(title@, author@, genre),
            Request::ListBooks => (self, ResponseView::Books(self.books)),
            Request::BorrowBook { book_id, member_id } => self.borrow_book(
                book_id,
                member_id,
                now,
            ),
            Request::ReturnBook { book_id, member_id, rating } => self.return_book(
                book_id,
                member_id,
                rating,
                now,
            ),
            Request::RemoveBook { book_id } => self.remove_book(book_id),
            Request::EditBook { book_id, title, author, genre } => self.edit_book(
                book_id,
                title@,
                author@,
                genre,
            ),
            Request::SearchBook { query } => (
                self,
                ResponseView::Books(matching_books(self.books, query@)),
            ),
            Request::AddMember { name } => self.add_member(name@),
            Request::RemoveMember { member_id } => self.remove_member(member_id),
            Request::EditMember { member_id, name } => self.edit_member(member_id, name@),
            Request::SearchMember { query } => (
                self,
                ResponseView::Members(matching_members(self.members, query@)),
            ),
            Request::ReserveBook { book_id, member_id } => self.reserve_book(
                book_id,
                member_id,
                now,
            ),
            Request::GenerateReport => (self, ResponseView::Report(self.report())),
        }
    }

    /// Book ids are distinct, at least 1 and below the next book id, which is
    /// at least 1; so are member ids with the next member id.
    pub open spec fn well_formed(self) -> bool {
        &&& self.next_book_id >= 1
        &&& self.next_member_id >= 1
        &&& forall|i: int, j: int|
            0 <= i < j < self.books.len() ==> (#[trigger] self.books[i]).id != (
            #[trigger] self.books[j]).id
        &&& forall|i: int|
            0 <= i < self.books.len() ==> 1 <= (#[trigger] self.books[i]).id
                < self.next_book_id
        &&& forall|i: int, j: int|
            0 <= i < j < self.members.len() ==> (#[trigger] self.members[i]).id != (
            #[trigger] self.members[j]).id
        &&& forall|i: int|
            0 <= i < self.members.len() ==> 1 <= (#[trigger] self.members[i]).id
                < self.next_member_id
    }

    /// The request stays within the machine's number ranges: a new id is
    /// left to hand out, a due date fits in a `u64`, a fine in a `u32`.
    pub open spec fn within_limits(self, request: Request, now: u64) -> bool {
        match request {
            Request::AddBook { .. } => self.next_book_id < u32::MAX,
            Request::AddMember { .. } => self.next_member_id < u32::MAX,
            Request::BorrowBook { book_id, .. } => has_copy_in(self.books, book_id) ==> now
                + LOAN_PERIOD_SECONDS <= u64::MAX,
            Request::ReturnBook { book_id, member_id, rating } => valid_rating(rating)
                && has_copy_out(self.books, book_id) ==> fines_fit(
                self.loans,
                book_id,
                member_id,
                now,
            ),
            _ => true,
        }
    }
}

// ---------------------------------------------------------------------------
// Proofs about the spec functions

proof fn lemma_books_view_push(books: Seq<Book>, book: Book)
    ensures
        books_view(books.push(book)) == books_view(books).push(book@),
{
    assert(books_view(books.push(book)) =~= books_view(books).push(book@));
}

proof fn lemma_members_view_push(members: Seq<Member>, member: Member)
    ensures
        members_view(members.push(member)) == members_view(members).push(member@),
{
    assert(members_view(members.push(member)) =~= members_view(members).push(member@));
}

proof fn lemma_books_view_remove(books: Seq<Book>, i: int)
    requires
        0 <= i < books.len(),
    ensures
        books_view(books.remove(i)) == books_view(books).remove(i),
{
    assert(books_view(books.remove(i)) =~= books_view(books).remove(i));
}

proof fn lemma_members_view_remove(members: Seq<Member>, i: int)
    requires
        0 <= i < members.len(),
    ensures
        members_view(members.remove(i)) == members_view(members).remove(i),
{
    assert(members_view(members.remove(i)) =~= members_view(members).remove(i));
}

/// What `last_book_index` finds is a book with the id, after which no book has it;
/// it finds nothing exactly when no book has the id.
pub proof fn lemma_last_book_index(books: Seq<BookView>, id: u32)
    ensures
        last_book_index(books, id) is None <==> !has_book(books, id),
        last_book_index(books, id) matches Some(k) ==> {
            &&& 0 <= k < books.len()
            &&& books[k].id == id
            &&& forall|j: int| k < j < books.len() ==> books[j].id != id
        },
    decreases books.len(),
{
    if books.len() > 0 {
        let p = books.drop_last();
        lemma_last_book_index(p, id);
        if books.last().id != id {
            if let Some(k) = last_book_index(p, id) {
                assert forall|j: int| k < j < books.len() implies books[j].id != id by {
                    if j < p.len() {
                        assert(books[j] == p[j]);
                    }
                }
            }
            if has_book(books, id) {
                let w = choose|w: int| 0 <= w < books.len() && (#[trigger] books[w]).id == id;
                assert(p[w].id == id);
            }
            if has_book(p, id) {
                let w = choose|w: int| 0 <= w < p.len() && (#[trigger] p[w]).id == id;
                assert(books[w].id == id);
            }
        } else {
            assert(books[books.len() - 1].id == id);
        }
    }
}

/// What `last_member_index` finds is a member with the id, after which no
/// member has it; it finds nothing exactly when no member has the id.
pub proof fn lemma_last_member_index(members: Seq<MemberView>, id: u32)
    ensures
        last_member_index(members, id) is None <==> !has_member(members, id),
        last_member_index(members, id) matches Some(k) ==> {
            &&& 0 <= k < members.len()
            &&& members[k].id == id
            &&& forall|j: int| k < j < members.len() ==> members[j].id != id
        },
    decreases members.len(),
{
    if members.len() > 0 {
        let p = members.drop_last();
        lemma_last_member_index(p, id);
        if members.last().id != id {
            if let Some(k) = last_member_index(p, id) {
                assert forall|j: int| k < j < members.len() implies members[j].id != id by {
                    if j < p.len() {
                        assert(members[j] == p[j]);
                    }
                }
            }
            if has_member(members, id) {
                let w = choose|w: int| 0 <= w < members.len() && (#[trigger] members[w]).id == id;
                assert(p[w].id == id);
            }
            if has_member(p, id) {
                let w = choose|w: int| 0 <= w < p.len() && (#[trigger] p[w]).id == id;
                assert(members[w].id == id);
            }
        } else {
            assert(members[members.len() - 1].id == id);
        }
    }
}

// ---------------------------------------------------------------------------
// The executable operations

impl LibraryState {
    /// An empty library.
    pub fn new() -> (state: Self)
        ensures
            state@ == LibraryModel::initial(),
    {
        let state = LibraryState {
            books: Vec::new(),
            members: Vec::new(),
            loans: Vec::new(),
            reservations: Vec::new(),
            fines: Vec::new(),
            next_book_id: 1,
            next_member_id: 1,
        };
        assert(state@.books =~= Seq::<BookView>::empty());
        assert(state@.members =~= Seq::<MemberView>::empty());
        state
    }

    /// Catalogues a new book under the next book id.
    pub fn add_book(&mut self, title: String, author: String, genre: Genre) -> (response: Response)
        requires
            old(self).next_book_id < u32::MAX,
        ensures
            (final(self)@, response@) == old(self)@.add_book(title@, author@, genre),
    {
        let id = self.next_book_id;
        let book = Book::new(id, title, author, genre);
        proof {
            lemma_books_view_push(self.books@, book);
        }
        self.books.push(book);
        self.next_book_id = id + 1;
        Response::BooksAdded { book_id: id }
    }

    /// Lends every copy of the book that is on the shelf and records a loan
    /// to the member, due fourteen days after `now`.
    pub fn borrow_book(&mut self, book_id: u32, member_id: u32, now: u64) -> (response: Response)
        requires
            has_copy_in(old(self)@.books, book_id) ==> now + LOAN_PERIOD_SECONDS <= u64::MAX,
        ensures
            (final(self)@, response@) == old(self)@.borrow_book(book_id, member_id, now),
    {
        let ghost before = self@.books;
        let mut found = false;
        let mut lent = false;
        let n = self.books.len();
        let mut i: usize = 0;
        while i < n
            invariant
                n == self.books@.len(),
                n == before.len(),
                i <= n,
                forall|k: int|
                    0 <= k < n ==> (#[trigger] self.books@[k])@ == (if k < i {
                        lend_copies(before, book_id)[k]
                    } else {
                        before[k]
                    }),
                found <==> exists|k: int| 0 <= k < i && (#[trigger] before[k]).id == book_id,
                lent <==> exists|k: int|
                    0 <= k < i && (#[trigger] before[k]).id == book_id && !before[k].is_borrowed,
                self.loans@ == old(self).loans@,
                self.members@ == old(self).members@,
                self.reservations@ == old(self).reservations@,
                self.fines@ == old(self).fines@,
                self.next_book_id == old(self).next_book_id,
                self.next_member_id == old(self).next_member_id,
            decreases n - i,
        {
            assert(self.books@[i as int]@ == before[i as int]);
            if self.books[i].id == book_id {
                found = true;
                if !self.books[i].is_borrowed {
                    self.books[i].is_borrowed = true;
                    lent = true;
                }
            }
            i = i + 1;
        }
        assert(self@.books =~= lend_copies(before, book_id));
        if !found {
            assert(lend_copies(before, book_id) =~= before);
            Response::Error(LibraryError::BookNotFound { book_id })
        } else if !lent {
            assert(lend_copies(before, book_id) =~= before);
            Response::Error(LibraryError::BookAlreadyBorrowed)
        } else {
            let due = now + LOAN_PERIOD_SECONDS;
            self.loans.push(Loan::new(book_id, member_id, now, due));
            Response::Success
        }
    }

    /// Puts back every lent-out copy of the book with the reader's score, if one
    /// was given, added to its ratings; closes the member's open loans of it,
    /// and fines each loan that it closes past its due date, for the whole days
    /// late. A score outside 1 to 5 is refused.
    pub fn return_book(
        &mut self,
        book_id: u32,
        member_id: u32,
        rating: Option<u8>,
        now: u64,
    ) -> (response: Response)
        requires
            valid_rating(rating) && has_copy_out(old(self)@.books, book_id) ==> fines_fit(
                old(self)@.loans,
                book_id,
                member_id,
                now,
            ),
        ensures
            (final(self)@, response@) == old(self)@.return_book(book_id, member_id, rating, now),
    {
        if let Some(score) = rating {
            if score < 1 || score > 5 {
                return Response::Error(LibraryError::InvalidRating { score });
            }
        }
        let ghost before = self@.books;
        let mut found = false;
        let mut shelved = false;
        let n = self.books.len();
        let mut i: usize = 0;
        while i < n
            invariant
                n == self.books@.len(),
                n == before.len(),
                i <= n,
                forall|k: int|
                    0 <= k < n ==> (#[trigger] self.books@[k])@ == (if k < i {
                        shelve_copies(before, book_id, rating)[k]
                    } else {
                        before[k]
                    }),
                found <==> exists|k: int| 0 <= k < i && (#[trigger] before[k]).id == book_id,
                shelved <==> exists|k: int|
                    0 <= k < i && (#[trigger] before[k]).id == book_id && before[k].is_borrowed,
                self.loans@ == old(self).loans@,
                self.members@ == old(self).members@,
                self.reservations@ == old(self).reservations@,
                self.fines@ == old(self).fines@,
                self.next_book_id == old(self).next_book_id,
                self.next_member_id == old(self).next_member_id,
            decreases n - i,
        {
            assert(self.books@[i as int]@ == before[i as int]);
            if self.books[i].id == book_id {
                found = true;
                if self.books[i].is_borrowed {
                    self.books[i].is_borrowed = false;
                    if let Some(score) = rating {
                        self.books[i].ratings.push(score);
                    }
                    shelved = true;
                }
            }
            i = i + 1;
        }
        assert(self@.books =~= shelve_copies(before, book_id, rating));
        if !found {
            assert(shelve_copies(before, book_id, rating) =~= before);
            return Response::Error(LibraryError::BookNotFound { book_id });
        }
        if !shelved {
            assert(shelve_copies(before, book_id, rating) =~= before);
            return Response::Error(LibraryError::BookNotBorrowed);
        }
        let ghost loans_before = self.loans@;
        let mut new_fines: Vec<Fine> = Vec::new();
        let m = self.loans.len();
        let mut j: usize = 0;
        while j < m
            invariant
                m == self.loans@.len(),
                m == loans_before.len(),
                j <= m,
                forall|k: int|
                    0 <= k < m ==> #[trigger] self.loans@[k] == (if k < j {
                        close_loans(loans_before, book_id, member_id)[k]
                    } else {
                        loans_before[k]
                    }),
                fines_fit(loans_before, book_id, member_id, now),
                new_fines@ == late_fines(loans_before.take(j as int), book_id, member_id, now),
                self@.books == shelve_copies(before, book_id, rating),
                self.members@ == old(self).members@,
                self.reservations@ == old(self).reservations@,
                self.fines@ == old(self).fines@,
                self.next_book_id == old(self).next_book_id,
                self.next_member_id == old(self).next_member_id,
            decreases m - j,
        {
            let loan = self.loans[j];
            proof {
                assert(loans_before.take(j + 1).drop_last() =~= loans_before.take(j as int));
                assert(loans_before.take(j + 1).last() == loan);
            }
            if loan.book_id == book_id && loan.member_id == member_id && !loan.returned {
                if now > loan.due_date {
                    assert(closes_late(loans_before[j as int], book_id, member_id, now));
                    let days = ((now - loan.due_date) / SECONDS_PER_DAY) as u32;
                    let amount = days * FINE_PER_DAY;
                    new_fines.push(Fine::new(member_id, book_id, days, amount));
                }
                self.loans[j].returned = true;
            }
            j = j + 1;
        }
        assert(self.loans@ =~= close_loans(loans_before, book_id, member_id));
        assert(loans_before.take(m as int) =~= loans_before);
        self.fines.append(&mut new_fines);
        Response::Success
    }

    /// Removes the last book that carries the id.
    pub fn remove_book(&mut self, book_id: u32) -> (response: Response)
        ensures
            (final(self)@, response@) == old(self)@.remove_book(book_id),
    {
        let ghost before = self@.books;
        let mut index: Option<usize> = None;
        let n = self.books.len();
        let mut i: usize = 0;
        while i < n
            invariant
                n == self.books@.len(),
                self@.books == before,
                i <= n,
                match index {
                    Some(k) => k < i && last_book_index(before.take(i as int), book_id) == Some(
                        k as int,
                    ),
                    None => last_book_index(before.take(i as int), book_id) is None,
                },
            decreases n - i,
        {
            proof {
                assert(before.take(i + 1).drop_last() =~= before.take(i as int));
                assert(before.take(i + 1).last() == self.books@[i as int]@);
            }
            if self.books[i].id == book_id {
                index = Some(i);
            }
            i = i + 1;
        }
        assert(before.take(n as int) =~= before);
        match index {
            Some(k) => {
                proof {
                    lemma_books_view_remove(self.books@, k as int);
                }
                self.books.remove(k);
                Response::Success
            },
            None => Response::Error(LibraryError::BookNotFound { book_id }),
        }
    }

    /// Gives every book that carries the id the new title, author and genre.
    pub fn edit_book(&mut self, book_id: u32, title: String, author: String, genre: Genre) -> (response: Response)
        ensures
            (final(self)@, response@) == old(self)@.edit_book(book_id, title@, author@, genre),
    {
        let ghost before = self@.books;
        let mut found = false;
        let n = self.books.len();
        let mut i: usize = 0;
        while i < n
            invariant
                n == self.books@.len(),
                n == before.len(),
                i <= n,
                forall|k: int|
                    0 <= k < n ==> (#[trigger] self.books@[k])@ == (if k < i {
                        retitle_books(before, book_id, title@, author@, genre)[k]
                    } else {
                        before[k]
                    }),
                found <==> exists|k: int| 0 <= k < i && (#[trigger] before[k]).id == book_id,
                self.loans@ == old(self).loans@,
                self.members@ == old(self).members@,
                self.reservations@ == old(self).reservations@,
                self.fines@ == old(self).fines@,
                self.next_book_id == old(self).next_book_id,
                self.next_member_id == old(self).next_member_id,
            decreases n - i,
        {
            assert(self.books@[i as int]@ == before[i as int]);
            if self.books[i].id == book_id {
                found = true;
                self.books[i].title = title.clone();
                self.books[i].author = author.clone();
                self.books[i].genre = genre;
            }
            i = i + 1;
        }
        assert(self@.books =~= retitle_books(before, book_id, title@, author@, genre));
        if found {
            Response::Success
        } else {
            assert(retitle_books(before, book_id, title@, author@, genre) =~= before);
            Response::Error(LibraryError::BookNotFound { book_id })
        }
    }

    /// A copy of the whole catalogue.
    pub fn list_books(&self) -> (books: Vec<Book>)
        ensures
            books_view(books@) == self@.books,
    {
        let mut books: Vec<Book> = Vec::new();
        let n = self.books.len();
        let mut i: usize = 0;
        while i < n
            invariant
                n == self.books@.len(),
                i <= n,
                books_view(books@) == self@.books.take(i as int),
            decreases n - i,
        {
            let book = self.books[i].clone();
            proof {
                lemma_books_view_push(books@, book);
                assert(self@.books.take(i + 1) =~= self@.books.take(i as int).push(book@));
            }
            books.push(book);
            i = i + 1;
        }
        assert(self@.books.take(n as int) =~= self@.books);
        books
    }

    /// The books whose title or author contains the query, in catalogue order.
    pub fn search_books(&self, query: &str) -> (books: Vec<Book>)
        ensures
            books_view(books@) == matching_books(self@.books, query@),
    {
        let mut books: Vec<Book> = Vec::new();
        let n = self.books.len();
        let mut i: usize = 0;
        while i < n
            invariant
                n == self.books@.len(),
                i <= n,
                books_view(books@) == matching_books(self@.books.take(i as int), query@),
            decreases n - i,
        {
            proof {
                assert(self@.books.take(i + 1).drop_last() =~= self@.books.take(i as int));
                assert(self@.books.take(i + 1).last() == self.books@[i as int]@);
            }
            if text_contains(self.books[i].title.as_str(), query) || text_contains(
                self.books[i].author.as_str(),
                query,
            ) {
                let book = self.books[i].clone();
                proof {
                    lemma_books_view_push(books@, book);
                }
                books.push(book);
            }
            i = i + 1;
        }
        assert(self@.books.take(n as int) =~= self@.books);
        books
    }

    /// Enrols a new member under the next member id.
    pub fn add_member(&mut self, name: String) -> (response: Response)
        requires
            old(self).next_member_id < u32::MAX,
        ensures
            (final(self)@, response@) == old(self)@.add_member(name@),
    {
        let id = self.next_member_id;
        let member = Member::new(id, name);
        proof {
            lemma_members_view_push(self.members@, member);
        }
        self.members.push(member);
        self.next_member_id = id + 1;
        Response::MemberAdded { member_id: id }
    }

    /// Removes the last member who carries the id.
    pub fn remove_member(&mut self, member_id: u32) -> (response: Response)
        ensures
            (final(self)@, response@) == old(self)@.remove_member(member_id),
    {
        let ghost before = self@.members;
        let mut index: Option<usize> = None;
        let n = self.members.len();
        let mut i: usize = 0;
        while i < n
            invariant
                n == self.members@.len(),
                self@.members == before,
                i <= n,
                match index {
                    Some(k) => k < i && last_member_index(before.take(i as int), member_id)
                        == Some(k as int),
                    None => last_member_index(before.take(i as int), member_id) is None,
                },
            decreases n - i,
        {
            proof {
                assert(before.take(i + 1).drop_last() =~= before.take(i as int));
                assert(before.take(i + 1).last() == self.members@[i as int]@);
            }
            if self.members[i].id == member_id {
                index = Some(i);
            }
            i = i + 1;
        }
        assert(before.take(n as int) =~= before);
        match index {
            Some(k) => {
                proof {
                    lemma_members_view_remove(self.members@, k as int);
                }
                self.members.remove(k);
                Response::Success
            },
            None => Response::Error(LibraryError::MemberNotFound { member_id }),
        }
    }

    /// Gives every member who carries the id the new name.
    pub fn edit_member(&mut self, member_id: u32, name: String) -> (response: Response)
        ensures
            (final(self)@, response@) == old(self)@.edit_member(member_id, name@),
    {
        let ghost before = self@.members;
        let mut found = false;
        let n = self.members.len();
        let mut i: usize = 0;
        while i < n
            invariant
                n == self.members@.len(),
                n == before.len(),
                i <= n,
                forall|k: int|
                    0 <= k < n ==> (#[trigger] self.members@[k])@ == (if k < i {
                        rename_members(before, member_id, name@)[k]
                    } else {
                        before[k]
                    }),
                found <==> exists|k: int| 0 <= k < i && (#[trigger] before[k]).id == member_id,
                self.books@ == old(self).books@,
                self.loans@ == old(self).loans@,
                self.reservations@ == old(self).reservations@,
                self.fines@ == old(self).fines@,
                self.next_book_id == old(self).next_book_id,
                self.next_member_id == old(self).next_member_id,
            decreases n - i,
        {
            assert(self.members@[i as int]@ == before[i as int]);
            if self.members[i].id == member_id {
                found = true;
                self.members[i].name = name.clone();
            }
            i = i + 1;
        }
        assert(self@.members =~= rename_members(before, member_id, name@));
        if found {
            Response::Success
        } else {
            assert(rename_members(before, member_id, name@) =~= before);
            Response::Error(LibraryError::MemberNotFound { member_id })
        }
    }

    /// The members whose name contains the query, in order.
    pub fn search_members(&self, query: &str) -> (members: Vec<Member>)
        ensures
            members_view(members@) == matching_members(self@.members, query@),
    {
        let mut members: Vec<Member> = Vec::new();
        let n = self.members.len();
        let mut i: usize = 0;
        while i < n
            invariant
                n == self.members@.len(),
                i <= n,
                members_view(members@) == matching_members(self@.members.take(i as int), query@),
            decreases n - i,
        {
            proof {
                assert(self@.members.take(i + 1).drop_last() =~= self@.members.take(i as int));
                assert(self@.members.take(i + 1).last() == self.members@[i as int]@);
            }
            if text_contains(self.members[i].name.as_str(), query) {
                let member = self.members[i].clone();
                proof {
                    lemma_members_view_push(members@, member);
                }
                members.push(member);
            }
            i = i + 1;
        }
        assert(self@.members.take(n as int) =~= self@.members);
        members
    }

    /// Records the member's reservation of the book, made at `now`.
    pub fn reserve_book(&mut self, book_id: u32, member_id: u32, now: u64) -> (response: Response)
        ensures
            (final(self)@, response@) == old(self)@.reserve_book(book_id, member_id, now),
    {
        self.reservations.push(Reservation::new(book_id, member_id, now));
        Response::Success
    }

    /// Performs a request that arrives at time `now` and gives the answer.
    pub fn handle_request(&mut self, request: Request, now: u64) -> (response: Response)
        requires
            old(self)@.within_limits(request, now),
        ensures
            (final(self)@, response@) == old(self)@.step(request, now),
    {
        match request {
            Request::AddBook { title, author, genre } => self.add_book(title, author, genre),
            Request::ListBooks => Response::Books(self.list_books()),
            Request::BorrowBook { book_id, member_id } => self.borrow_book(book_id, member_id, now),
            Request::ReturnBook { book_id, member_id, rating } => self.return_book(
                book_id,
                member_id,
                rating,
                now,
            ),
            Request::RemoveBook { book_id } => self.remove_book(book_id),
            Request::EditBook { book_id, title, author, genre } => self.edit_book(
                book_id,
                title,
                author,
                genre,
            ),
            Request::SearchBook { query } => Response::Books(self.search_books(query.as_str())),
            Request::AddMember { name } => self.add_member(name),
            Request::RemoveMember { member_id } => self.remove_member(member_id),
            Request::EditMember { member_id, name } => self.edit_member(member_id, name),
            Request::SearchMember { query } => Response::Members(
                self.search_members(query.as_str()),
            ),
            Request::ReserveBook { book_id, member_id } => self.reserve_book(
                book_id,
                member_id,
                now,
            ),
            Request::GenerateReport => Response::Report(self.report()),
        }
    }

    /// The library's statistics at this moment.
    pub fn report(&self) -> (report: LibraryReport)
        ensures
            report == self@.report(),
    {
        let mut borrowed: u64 = 0;
        let n = self.books.len();
        let mut i: usize = 0;
        while i < n
            invariant
                n == self.books@.len(),
                i <= n,
                borrowed == count_borrowed(self@.books.take(i as int)),
            decreases n - i,
        {
            proof {
                assert(self@.books.take(i + 1).drop_last() =~= self@.books.take(i as int));
                assert(self@.books.take(i + 1).last() == self.books@[i as int]@);
                lemma_count_borrowed_bound(self@.books.take(i as int));
            }
            if self.books[i].is_borrowed {
                borrowed = borrowed + 1;
            }
            i = i + 1;
        }
        assert(self@.books.take(n as int) =~= self@.books);
        let mut open: u64 = 0;
        let m = self.loans.len();
        let mut j: usize = 0;
        while j < m
            invariant
                m == self.loans@.len(),
                j <= m,
                open == count_open_loans(self.loans@.take(j as int)),
            decreases m - j,
        {
            proof {
                assert(self.loans@.take(j + 1).drop_last() =~= self.loans@.take(j as int));
                lemma_count_open_loans_bound(self.loans@.take(j as int));
            }
            if !self.loans[j].returned {
                open = open + 1;
            }
            j = j + 1;
        }
        assert(self.loans@.take(m as int) =~= self.loans@);
        let mut total: u128 = 0;
        let f = self.fines.len();
        let mut k: usize = 0;
        while k < f
            invariant
                f == self.fines@.len(),
                k <= f,
                total == fines_total(self.fines@.take(k as int)),
            decreases f - k,
        {
            proof {
                assert(self.fines@.take(k + 1).drop_last() =~= self.fines@.take(k as int));
                lemma_fines_total_bound(self.fines@.take(k + 1));
                assert((k + 1) * (u32::MAX as int) <= 0x1_0000_0000_0000_0000 * 0x1_0000_0000)
                    by (nonlinear_arith)
                    requires
                        k + 1 <= 0x1_0000_0000_0000_0000,
                ;
            }
            total = total + self.fines[k].amount as u128;
            k = k + 1;
        }
        assert(self.fines@.take(f as int) =~= self.fines@);
        LibraryReport {
            total_books: n as u64,
            borrowed_books: borrowed,
            total_members: self.members.len() as u64,
            active_loans: open,
            total_fines: total,
        }
    }

    fn any_copy_in(&self, book_id: u32) -> (found: bool)
        ensures
            found == has_copy_in(self@.books, book_id),
    {
        let n = self.books.len();
        let mut i: usize = 0;
        while i < n
            invariant
                n == self.books@.len(),
                i <= n,
                forall|k: int|
                    0 <= k < i ==> !((#[trigger] self@.books[k]).id == book_id
                        && !self@.books[k].is_borrowed),
            decreases n - i,
        {
            if self.books[i].id == book_id && !self.books[i].is_borrowed {
                assert(self@.books[i as int] == self.books@[i as int]@);
                return true;
            }
            i = i + 1;
        }
        false
    }

    fn any_copy_out(&self, book_id: u32) -> (found: bool)
        ensures
            found == has_copy_out(self@.books, book_id),
    {
        let n = self.books.len();
        let mut i: usize = 0;
        while i < n
            invariant
                n == self.books@.len(),
                i <= n,
                forall|k: int|
                    0 <= k < i ==> !((#[trigger] self@.books[k]).id == book_id
                        && self@.books[k].is_borrowed),
            decreases n - i,
        {
            if self.books[i].id == book_id && self.books[i].is_borrowed {
                assert(self@.books[i as int] == self.books@[i as int]@);
                return true;
            }
            i = i + 1;
        }
        false
    }

    fn late_fines_fit(&self, book_id: u32, member_id: u32, now: u64) -> (fit: bool)
        ensures
            fit == fines_fit(self@.loans, book_id, member_id, now),
    {
        let n = self.loans.len();
        let mut i: usize = 0;
        while i < n
            invariant
                n == self.loans@.len(),
                i <= n,
                forall|k: int|
                    0 <= k < i && closes_late(#[trigger] self.loans@[k], book_id, member_id, now)
                        ==> overdue_days(now, self.loans@[k].due_date) * FINE_PER_DAY <= u32::MAX,
            decreases n - i,
        {
            let loan = self.loans[i];
            if loan.book_id == book_id && loan.member_id == member_id && !loan.returned && now
                > loan.due_date {
                let days = ((now - loan.due_date) / SECONDS_PER_DAY) as u32;
                if (days as u64) * (FINE_PER_DAY as u64) > 0xffff_ffffu64 {
                    assert(closes_late(self.loans@[i as int], book_id, member_id, now));
                    return false;
                }
            }
            i = i + 1;
        }
        true
    }

    /// Whether the request stays within the machine's number ranges, as
    /// `LibraryModel::within_limits` states; a request is performed only then.
    pub fn request_within_limits(&self, request: &Request, now: u64) -> (ok: bool)
        ensures
            ok == self@.within_limits(*request, now),
    {
        match request {
            Request::AddBook { .. } => self.next_book_id < u32::MAX,
            Request::AddMember { .. } => self.next_member_id < u32::MAX,
            Request::BorrowBook { book_id, .. } => !self.any_copy_in(*book_id) || now
                <= u64::MAX - LOAN_PERIOD_SECONDS,
            Request::ReturnBook { book_id, member_id, rating } => {
                let score_ok = match rating {
                    Some(score) => 1 <= *score && *score <= 5,
                    None => true,
                };
                !score_ok || !self.any_copy_out(*book_id) || self.late_fines_fit(
                    *book_id,
                    *member_id,
                    now,
                )
            },
            _ => true,
        }
    }

    /// Whether every book id is distinct, at least 1 and below `next_book_id`.
    fn book_ids_ok(&self) -> (ok: bool)
        ensures
            ok == ((forall|i: int, j: int|
                0 <= i < j < self@.books.len() ==> (#[trigger] self@.books[i]).id != (
                #[trigger] self@.books[j]).id) && (forall|i: int|
                0 <= i < self@.books.len() ==> 1 <= (#[trigger] self@.books[i]).id
                    < self.next_book_id)),
    {
        let n = self.books.len();
        let mut i: usize = 0;
        while i < n
            invariant
                n == self@.books.len(),
                i <= n,
                forall|a: int, b: int|
                    0 <= a < b < n && a < i ==> (#[trigger] self@.books[a]).id != (
                    #[trigger] self@.books[b]).id,
                forall|a: int| 0 <= a < i ==> 1 <= (#[trigger] self@.books[a]).id < self.next_book_id,
            decreases n - i,
        {
            let id = self.books[i].id;
            assert(self@.books[i as int].id == id);
            if id < 1 || id >= self.next_book_id {
                return false;
            }
            let mut j: usize = i + 1;
            while j < n
                invariant
                    n == self@.books.len(),
                    i < n,
                    i < j <= n,
                    id == self@.books[i as int].id,
                    forall|b: int| i < b < j ==> id != (#[trigger] self@.books[b]).id,
                decreases n - j,
            {
                if self.books[j].id == id {
                    assert(self@.books[j as int].id == self@.books[i as int].id);
                    return false;
                }
                j = j + 1;
            }
            i = i + 1;
        }
        true
    }

    /// Whether every member id is distinct, at least 1 and below `next_member_id`.
    fn member_ids_ok(&self) -> (ok: bool)
        ensures
            ok == ((forall|i: int, j: int|
                0 <= i < j < self@.members.len() ==> (#[trigger] self@.members[i]).id != (
                #[trigger] self@.members[j]).id) && (forall|i: int|
                0 <= i < self@.members.len() ==> 1 <= (#[trigger] self@.members[i]).id
                    < self.next_member_id)),
    {
        let n = self.members.len();
        let mut i: usize = 0;
        while i < n
            invariant
                n == self@.members.len(),
                i <= n,
                forall|a: int, b: int|
                    0 <= a < b < n && a < i ==> (#[trigger] self@.members[a]).id != (
                    #[trigger] self@.members[b]).id,
                forall|a: int| 0 <= a < i ==> 1 <= (#[trigger] self@.members[a]).id < self.next_member_id,
            decreases n - i,
        {
            let id = self.members[i].id;
            assert(self@.members[i as int].id == id);
            if id < 1 || id >= self.next_member_id {
                return false;
            }
            let mut j: usize = i + 1;
            while j < n
                invariant
                    n == self@.members.len(),
                    i < n,
                    i < j <= n,
                    id == self@.members[i as int].id,
                    forall|b: int| i < b < j ==> id != (#[trigger] self@.members[b]).id,
                decreases n - j,
            {
                if self.members[j].id == id {
                    assert(self@.members[j as int].id == self@.members[i as int].id);
                    return false;
                }
                j = j + 1;
            }
            i = i + 1;
        }
        true
    }

    /// Whether the library is well formed: ids unique, at least 1 and below the
    /// counters that hand them out. A state read from storage is checked with it.
    pub fn is_well_formed(&self) -> (ok: bool)
        ensures
            ok == self@.well_formed(),
    {
        self.next_book_id >= 1 && self.next_member_id >= 1 && self.book_ids_ok()
            && self.member_ids_ok()
    }
}

} // verus!

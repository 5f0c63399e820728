//! Properties of the library that span requests.
use vstd::prelude::*;
use crate::model::{BookView, Fine, Genre, Loan, MemberView};
use crate::protocol::{LibraryError, Request, ResponseView};
use crate::state::{
    close_loans, count_borrowed, count_open_loans, has_book, has_copy_in, has_copy_out,
    has_member, closes_late, last_book_index, last_member_index, late_fine, late_fines,
    lemma_count_borrowed_bound, lemma_count_open_loans_bound, lemma_last_book_index,
    lemma_last_member_index, lend_copies, matching_books, matching_members, overdue_days,
    rate_books, shelve_copies, valid_rating, LibraryModel, FINE_PER_DAY, LOAN_PERIOD_SECONDS,
};
use crate::text::lemma_contains_itself;

verus! {

/// The empty library is well formed.
pub proof fn initial_is_well_formed()
    ensures
        LibraryModel::initial().well_formed(),
{
}

/// In a well-formed library neither next id is in use yet: a new book or
/// member never takes an id that another one carries.
pub proof fn next_ids_are_unused(m: LibraryModel)
    requires
        m.well_formed(),
    ensures
        !has_book(m.books, m.next_book_id),
        !has_member(m.members, m.next_member_id),
{
}

/// Every request keeps the library well formed: ids stay unique and below the
/// counters that hand them out.
pub proof fn step_keeps_well_formed(m: LibraryModel, request: Request, now: u64)
    requires
        m.well_formed(),
        m.within_limits(request, now),
    ensures
        m.step(request, now).0.well_formed(),
{
    let m2 = m.step(request, now).0;
    match request {
        Request::AddBook { title, author, genre } => {
            assert(m2.books.drop_last() == m.books);
            assert forall|i: int, j: int| 0 <= i < j < m2.books.len() implies (
            #[trigger] m2.books[i]).id != (#[trigger] m2.books[j]).id by {
                assert(m2.books[i] == m.books[i]);
                if j < m.books.len() {
                    assert(m2.books[j] == m.books[j]);
                }
            }
            assert forall|i: int| 0 <= i < m2.books.len() implies 1 <= (
            #[trigger] m2.books[i]).id < m2.next_book_id by {
                if i < m.books.len() {
                    assert(m2.books[i] == m.books[i]);
                }
            }
        },
        Request::AddMember { name } => {
            assert forall|i: int, j: int| 0 <= i < j < m2.members.len() implies (
            #[trigger] m2.members[i]).id != (#[trigger] m2.members[j]).id by {
                assert(m2.members[i] == m.members[i]);
                if j < m.members.len() {
                    assert(m2.members[j] == m.members[j]);
                }
            }
            assert forall|i: int| 0 <= i < m2.members.len() implies 1 <= (
            #[trigger] m2.members[i]).id < m2.next_member_id by {
                if i < m.members.len() {
                    assert(m2.members[i] == m.members[i]);
                }
            }
        },
        Request::RemoveBook { book_id } => {
            lemma_last_book_index(m.books, book_id);
            if let Some(k) = last_book_index(m.books, book_id) {
                assert forall|i: int, j: int| 0 <= i < j < m2.books.len() implies (
                #[trigger] m2.books[i]).id != (#[trigger] m2.books[j]).id by {
                    let i0 = if i < k { i } else { i + 1 };
                    let j0 = if j < k { j } else { j + 1 };
                    assert(m2.books[i] == m.books[i0]);
                    assert(m2.books[j] == m.books[j0]);
                }
                assert forall|i: int| 0 <= i < m2.books.len() implies 1 <= (
                #[trigger] m2.books[i]).id < m2.next_book_id by {
                    let i0 = if i < k { i } else { i + 1 };
                    assert(m2.books[i] == m.books[i0]);
                }
            }
        },
        Request::RemoveMember { member_id } => {
            lemma_last_member_index(m.members, member_id);
            if let Some(k) = last_member_index(m.members, member_id) {
                assert forall|i: int, j: int| 0 <= i < j < m2.members.len() implies (
                #[trigger] m2.members[i]).id != (#[trigger] m2.members[j]).id by {
                    let i0 = if i < k { i } else { i + 1 };
                    let j0 = if j < k { j } else { j + 1 };
                    assert(m2.members[i] == m.members[i0]);
                    assert(m2.members[j] == m.members[j0]);
                }
                assert forall|i: int| 0 <= i < m2.members.len() implies 1 <= (
                #[trigger] m2.members[i]).id < m2.next_member_id by {
                    let i0 = if i < k { i } else { i + 1 };
                    assert(m2.members[i] == m.members[i0]);
                }
            }
        },
        Request::BorrowBook { book_id, member_id } => {
            assert forall|i: int, j: int| 0 <= i < j < m2.books.len() implies (
            #[trigger] m2.books[i]).id != (#[trigger] m2.books[j]).id by {
                assert(m2.books[i].id == m.books[i].id);
                assert(m2.books[j].id == m.books[j].id);
            }
            assert forall|i: int| 0 <= i < m2.books.len() implies 1 <= (
            #[trigger] m2.books[i]).id < m2.next_book_id by {
                assert(m2.books[i].id == m.books[i].id);
            }
        },
        Request::ReturnBook { .. } => {
            assert forall|i: int, j: int| 0 <= i < j < m2.books.len() implies (
            #[trigger] m2.books[i]).id != (#[trigger] m2.books[j]).id by {
                assert(m2.books[i].id == m.books[i].id);
                assert(m2.books[j].id == m.books[j].id);
            }
            assert forall|i: int| 0 <= i < m2.books.len() implies 1 <= (
            #[trigger] m2.books[i]).id < m2.next_book_id by {
                assert(m2.books[i].id == m.books[i].id);
            }
        },
        Request::EditBook { book_id, title, author, genre } => {
            assert forall|i: int, j: int| 0 <= i < j < m2.books.len() implies (
            #[trigger] m2.books[i]).id != (#[trigger] m2.books[j]).id by {
                assert(m2.books[i].id == m.books[i].id);
                assert(m2.books[j].id == m.books[j].id);
            }
            assert forall|i: int| 0 <= i < m2.books.len() implies 1 <= (
            #[trigger] m2.books[i]).id < m2.next_book_id by {
                assert(m2.books[i].id == m.books[i].id);
            }
        },
        Request::EditMember { member_id, name } => {
            assert forall|i: int, j: int| 0 <= i < j < m2.members.len() implies (
            #[trigger] m2.members[i]).id != (#[trigger] m2.members[j]).id by {
                assert(m2.members[i].id == m.members[i].id);
                assert(m2.members[j].id == m.members[j].id);
            }
            assert forall|i: int| 0 <= i < m2.members.len() implies 1 <= (
            #[trigger] m2.members[i]).id < m2.next_member_id by {
                assert(m2.members[i].id == m.members[i].id);
            }
        },
        _ => {},
    }
}

/// A request that is refused, or that only reads (a list, a search or the
/// report), leaves
/// the library as it was.
pub proof fn refusals_and_reads_change_nothing(m: LibraryModel, request: Request, now: u64)
    ensures
        ({
            let (m2, r) = m.step(request, now);
            (r is Error || r is Books || r is Members || r is Report) ==> m2 == m
        }),
{
    match request {
        Request::RemoveBook { book_id } => {
            lemma_last_book_index(m.books, book_id);
        },
        Request::RemoveMember { member_id } => {
            lemma_last_member_index(m.members, member_id);
        },
        _ => {},
    }
}

/// Nothing is forgotten: the id counters never go back, reservations and
/// fines are only ever added to, and a loan once made keeps its book, member
/// and dates, and stays returned once returned.
pub proof fn history_is_kept(m: LibraryModel, request: Request, now: u64)
    requires
        m.within_limits(request, now),
    ensures
        ({
            let m2 = m.step(request, now).0;
            &&& m.next_book_id <= m2.next_book_id
            &&& m.next_member_id <= m2.next_member_id
            &&& m.reservations.len() <= m2.reservations.len()
            &&& m2.reservations.take(m.reservations.len() as int) == m.reservations
            &&& m.fines.len() <= m2.fines.len()
            &&& m2.fines.take(m.fines.len() as int) == m.fines
            &&& m.loans.len() <= m2.loans.len()
            &&& forall|i: int|
                0 <= i < m.loans.len() ==> {
                    &&& (#[trigger] m2.loans[i]).book_id == m.loans[i].book_id
                    &&& m2.loans[i].member_id == m.loans[i].member_id
                    &&& m2.loans[i].borrow_date == m.loans[i].borrow_date
                    &&& m2.loans[i].due_date == m.loans[i].due_date
                    &&& m.loans[i].returned ==> m2.loans[i].returned
                }
        }),
{
    let m2 = m.step(request, now).0;
    assert(m2.reservations.take(m.reservations.len() as int) =~= m.reservations);
    assert(m2.fines.take(m.fines.len() as int) =~= m.fines);
    match request {
        Request::RemoveBook { book_id } => {
            lemma_last_book_index(m.books, book_id);
        },
        Request::RemoveMember { member_id } => {
            lemma_last_member_index(m.members, member_id);
        },
        Request::BorrowBook { .. } => {
            assert forall|i: int| 0 <= i < m.loans.len() implies (#[trigger] m2.loans[i])
                == m.loans[i] by {}
        },
        _ => {},
    }
}

/// A new book gets the next book id and is found at once by searching for its
/// title: the search answers what it answered before, followed by the new book.
pub proof fn added_book_is_found(m: LibraryModel, title: Seq<char>, author: Seq<char>, genre: Genre)
    requires
        m.next_book_id < u32::MAX,
    ensures
        ({
            let (m2, r) = m.add_book(title, author, genre);
            let book = BookView {
                id: m.next_book_id,
                title,
                author,
                genre,
                is_borrowed: false,
                ratings: Seq::empty(),
            };
            &&& r == ResponseView::BooksAdded { book_id: m.next_book_id }
            &&& matching_books(m2.books, title) == matching_books(m.books, title).push(book)
        }),
{
    let m2 = m.add_book(title, author, genre).0;
    lemma_contains_itself(title);
    assert(m2.books.drop_last() == m.books);
}

/// A new member gets the next member id and is found at once by searching for
/// the name: the search answers what it answered before, followed by the member.
pub proof fn added_member_is_found(m: LibraryModel, name: Seq<char>)
    requires
        m.next_member_id < u32::MAX,
    ensures
        ({
            let (m2, r) = m.add_member(name);
            let member = MemberView { id: m.next_member_id, name, borrowed_books: Seq::empty() };
            &&& r == ResponseView::MemberAdded { member_id: m.next_member_id }
            &&& matching_members(m2.members, name) == matching_members(m.members, name).push(
                member,
            )
        }),
{
    let m2 = m.add_member(name).0;
    lemma_contains_itself(name);
    assert(m2.members.drop_last() == m.members);
}

/// The report never counts more lent-out books than books, nor more open
/// loans than loans.
pub proof fn report_counts_are_bounded(m: LibraryModel)
    ensures
        count_borrowed(m.books) <= m.books.len(),
        count_open_loans(m.loans) <= m.loans.len(),
{
    lemma_count_borrowed_bound(m.books);
    lemma_count_open_loans_bound(m.loans);
}

/// In a well-formed library, a book that is removed is gone: no book carries
/// the id, and removing it again is refused.
pub proof fn removed_book_is_gone(m: LibraryModel, book_id: u32)
    requires
        m.well_formed(),
        has_book(m.books, book_id),
    ensures
        ({
            let (m2, r) = m.remove_book(book_id);
            &&& r == ResponseView::Success
            &&& m2.books.len() + 1 == m.books.len()
            &&& !has_book(m2.books, book_id)
            &&& m2.remove_book(book_id).1 == ResponseView::Error(
                LibraryError::BookNotFound { book_id },
            )
        }),
{
    lemma_last_book_index(m.books, book_id);
    let k = last_book_index(m.books, book_id).unwrap();
    let m2 = m.remove_book(book_id).0;
    assert forall|i: int| 0 <= i < m2.books.len() implies (#[trigger] m2.books[i]).id != book_id by {
        if i < k {
            assert(m2.books[i] == m.books[i]);
        } else {
            assert(m2.books[i] == m.books[i + 1]);
        }
    }
    lemma_last_book_index(m2.books, book_id);
}

/// In a well-formed library, a member who is removed is gone: no member carries
/// the id, and removing it again is refused.
pub proof fn removed_member_is_gone(m: LibraryModel, member_id: u32)
    requires
        m.well_formed(),
        has_member(m.members, member_id),
    ensures
        ({
            let (m2, r) = m.remove_member(member_id);
            &&& r == ResponseView::Success
            &&& m2.members.len() + 1 == m.members.len()
            &&& !has_member(m2.members, member_id)
            &&& m2.remove_member(member_id).1 == ResponseView::Error(
                LibraryError::MemberNotFound { member_id },
            )
        }),
{
    lemma_last_member_index(m.members, member_id);
    let k = last_member_index(m.members, member_id).unwrap();
    let m2 = m.remove_member(member_id).0;
    assert forall|i: int| 0 <= i < m2.members.len() implies (#[trigger] m2.members[i]).id
        != member_id by {
        if i < k {
            assert(m2.members[i] == m.members[i]);
        } else {
            assert(m2.members[i] == m.members[i + 1]);
        }
    }
    lemma_last_member_index(m2.members, member_id);
}

/// In a well-formed library, a lent-out book cannot be lent again: a second
/// borrow of it, by anyone, is refused as already borrowed.
pub proof fn borrowed_book_cannot_be_borrowed_again(
    m: LibraryModel,
    book_id: u32,
    member_id: u32,
    other_member_id: u32,
    t1: u64,
    t2: u64,
)
    requires
        m.well_formed(),
        has_copy_in(m.books, book_id),
    ensures
        ({
            let (m1, r1) = m.borrow_book(book_id, member_id, t1);
            let (m2, r2) = m1.borrow_book(book_id, other_member_id, t2);
            &&& r1 == ResponseView::Success
            &&& r2 == ResponseView::Error(LibraryError::BookAlreadyBorrowed)
            &&& m2 == m1
        }),
{
    let w = choose|w: int|
        0 <= w < m.books.len() && (#[trigger] m.books[w]).id == book_id && !m.books[w].is_borrowed;
    let m1 = m.borrow_book(book_id, member_id, t1).0;
    assert(m1.books[w].id == book_id);
    assert forall|i: int| 0 <= i < m1.books.len() && (#[trigger] m1.books[i]).id == book_id
        implies m1.books[i].is_borrowed by {
        if i != w {
            if i < w {
                assert(m.books[i].id != m.books[w].id);
            } else {
                assert(m.books[w].id != m.books[i].id);
            }
        }
    }
}

/// The fines that a sequence of loans followed by one more loan brings: those
/// of the sequence, then one for the last loan if the return closes it late.
proof fn lemma_late_fines_push(loans: Seq<Loan>, loan: Loan, book_id: u32, member_id: u32, now: u64)
    ensures
        late_fines(loans.push(loan), book_id, member_id, now) == late_fines(
            loans,
            book_id,
            member_id,
            now,
        ) + (if closes_late(loan, book_id, member_id, now) {
            seq![late_fine(loan, book_id, member_id, now)]
        } else {
            Seq::empty()
        }),
{
    assert(loans.push(loan).drop_last() =~= loans);
    let f = late_fines(loans, book_id, member_id, now);
    assert(f + Seq::<Fine>::empty() =~= f);
    assert(f.push(late_fine(loan, book_id, member_id, now)) =~= f + seq![
        late_fine(loan, book_id, member_id, now),
    ]);
}

/// In a well-formed library, lending a book that is on the shelf and taking it
/// back restores the catalogue, but for the reader's score, if one was given,
/// added to the book's ratings. The new loan stays on record, returned; the
/// return fines the member's other open loans of the book that it closes late,
/// as `late_fines` says, and for the new loan adds a fine of 1000 a whole day
/// late exactly when it comes back past its due date, fourteen days after it
/// was made. Loans that were already returned are not fined again.
pub proof fn borrow_then_return(
    m: LibraryModel,
    book_id: u32,
    member_id: u32,
    rating: Option<u8>,
    t1: u64,
    t2: u64,
)
    requires
        m.well_formed(),
        valid_rating(rating),
        has_copy_in(m.books, book_id),
    ensures
        ({
            let (m1, r1) = m.borrow_book(book_id, member_id, t1);
            let (m2, r2) = m1.return_book(book_id, member_id, rating, t2);
            let due = (t1 + 14 * 24 * 60 * 60) as u64;
            let loan = Loan { book_id, member_id, borrow_date: t1, due_date: due, returned: true };
            let older = close_loans(m.loans, book_id, member_id);
            &&& r1 == ResponseView::Success
            &&& r2 == ResponseView::Success
            &&& m2.books == rate_books(m.books, book_id, rating)
            &&& rating is None ==> m2.books == m.books
            &&& m2.loans == older.push(loan)
            &&& m2.fines == m.fines + late_fines(m.loans, book_id, member_id, t2) + (if t2 > due {
                seq![
                    Fine {
                        member_id,
                        book_id,
                        overdue_days: ((t2 - due) / 86400) as u32,
                        amount: ((((t2 - due) / 86400) as u32) * 1000) as u32,
                        paid: false,
                    },
                ]
            } else {
                Seq::empty()
            })
            &&& m2.members == m.members
            &&& m2.reservations == m.reservations
            &&& m2.next_book_id == m.next_book_id
            &&& m2.next_member_id == m.next_member_id
        }),
{
    let w = choose|w: int|
        0 <= w < m.books.len() && (#[trigger] m.books[w]).id == book_id && !m.books[w].is_borrowed;
    let (m1, r1) = m.borrow_book(book_id, member_id, t1);
    assert(m1.books[w].id == book_id && m1.books[w].is_borrowed);
    assert(has_copy_out(m1.books, book_id));
    assert(shelve_copies(lend_copies(m.books, book_id), book_id, rating) =~= rate_books(
        m.books,
        book_id,
        rating,
    )) by {
        assert forall|i: int| 0 <= i < m.books.len() implies #[trigger] shelve_copies(
            lend_copies(m.books, book_id),
            book_id,
            rating,
        )[i] == rate_books(m.books, book_id, rating)[i] by {
            if m.books[i].id == book_id && i != w {
                if i < w {
                    assert(m.books[i].id != m.books[w].id);
                } else {
                    assert(m.books[w].id != m.books[i].id);
                }
            }
        }
    }
    if rating is None {
        assert(rate_books(m.books, book_id, rating) =~= m.books);
    }
    let due = (t1 + LOAN_PERIOD_SECONDS) as u64;
    let open = Loan { book_id, member_id, borrow_date: t1, due_date: due, returned: false };
    let loan = Loan { book_id, member_id, borrow_date: t1, due_date: due, returned: true };
    let older = close_loans(m.loans, book_id, member_id);
    assert(close_loans(m.loans.push(open), book_id, member_id) =~= older.push(loan));
    lemma_late_fines_push(m.loans, open, book_id, member_id, t2);
    assert(m.fines + (late_fines(m.loans, book_id, member_id, t2) + (if t2 > due {
        seq![late_fine(open, book_id, member_id, t2)]
    } else {
        Seq::empty()
    })) =~= m.fines + late_fines(m.loans, book_id, member_id, t2) + (if t2 > due {
        seq![late_fine(open, book_id, member_id, t2)]
    } else {
        Seq::empty()
    }));
}

} // verus!

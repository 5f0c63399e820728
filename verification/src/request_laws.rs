//! What each request does, stated directly over the library's records: which
//! answer comes back, and which fields of which records change, and how.
use vstd::prelude::*;
use crate::model::{BookView, Fine, Genre, Loan, MemberView, Reservation};
use crate::protocol::{LibraryError, Request, ResponseView};
use crate::state::{
    late_fines, count_borrowed, count_open_loans, fines_total, lemma_fines_total_bound, matching_books,
    matching_members, LibraryModel,
};

verus! {

/// Adding a book answers with the next book id, appends a book with exactly the
/// given title, author and genre, on the shelf and unrated, and moves the
/// counter on by one; nothing else changes.
pub proof fn adding_a_book_appends_it(
    m: LibraryModel,
    title: String,
    author: String,
    genre: Genre,
    now: u64,
)
    requires
        m.next_book_id < u32::MAX,
    ensures
        ({
            let (m2, r) = m.step(Request::AddBook { title, author, genre }, now);
            &&& r == ResponseView::BooksAdded { book_id: m.next_book_id }
            &&& m2.books.len() == m.books.len() + 1
            &&& forall|i: int| 0 <= i < m.books.len() ==> m2.books[i] == m.books[i]
            &&& m2.books.last().id == m.next_book_id
            &&& m2.books.last().title == title@
            &&& m2.books.last().author == author@
            &&& m2.books.last().genre == genre
            &&& !m2.books.last().is_borrowed
            &&& m2.books.last().ratings.len() == 0
            &&& m2.next_book_id == m.next_book_id + 1
            &&& m2.members == m.members
            &&& m2.loans == m.loans
            &&& m2.reservations == m.reservations
            &&& m2.fines == m.fines
            &&& m2.next_member_id == m.next_member_id
        }),
{
}

/// Adding a member answers with the next member id, appends a member with
/// exactly the given name and no books, and moves the counter on by one.
pub proof fn adding_a_member_appends_them(m: LibraryModel, name: String, now: u64)
    requires
        m.next_member_id < u32::MAX,
    ensures
        ({
            let (m2, r) = m.step(Request::AddMember { name }, now);
            &&& r == ResponseView::MemberAdded { member_id: m.next_member_id }
            &&& m2.members.len() == m.members.len() + 1
            &&& forall|i: int| 0 <= i < m.members.len() ==> m2.members[i] == m.members[i]
            &&& m2.members.last().id == m.next_member_id
            &&& m2.members.last().name == name@
            &&& m2.members.last().borrowed_books.len() == 0
            &&& m2.next_member_id == m.next_member_id + 1
            &&& m2.books == m.books
            &&& m2.loans == m.loans
            &&& m2.reservations == m.reservations
            &&& m2.fines == m.fines
            &&& m2.next_book_id == m.next_book_id
        }),
{
}

/// Borrowing a book that has a copy on the shelf succeeds: every shelf copy
/// with the id is lent out, every other book stays as it was, and a loan of
/// that book to that member, made now and due fourteen days later, is added.
pub proof fn borrowing_lends_and_records_a_loan(
    m: LibraryModel,
    book_id: u32,
    member_id: u32,
    now: u64,
    w: int,
)
    requires
        0 <= w < m.books.len(),
        m.books[w].id == book_id,
        !m.books[w].is_borrowed,
    ensures
        ({
            let (m2, r) = m.step(Request::BorrowBook { book_id, member_id }, now);
            &&& r == ResponseView::Success
            &&& m2.books.len() == m.books.len()
            &&& forall|i: int|
                0 <= i < m.books.len() ==> (#[trigger] m2.books[i]).is_borrowed == (
                m.books[i].is_borrowed || m.books[i].id == book_id)
            &&& forall|i: int|
                0 <= i < m.books.len() ==> (#[trigger] m2.books[i]) == BookView {
                    is_borrowed: m2.books[i].is_borrowed,
                    ..m.books[i]
                }
            &&& m2.loans == m.loans.push(
                Loan {
                    book_id,
                    member_id,
                    borrow_date: now,
                    due_date: (now + 14 * 24 * 60 * 60) as u64,
                    returned: false,
                },
            )
            &&& m2.members == m.members
            &&& m2.reservations == m.reservations
            &&& m2.fines == m.fines
        }),
{
}

/// Borrowing is refused, and changes nothing, when no book carries the id
/// (not found) or when every book that does is lent out (already borrowed).
pub proof fn borrowing_refusals(m: LibraryModel, book_id: u32, member_id: u32, now: u64)
    ensures
        ({
            let (m2, r) = m.step(Request::BorrowBook { book_id, member_id }, now);
            &&& (forall|i: int| 0 <= i < m.books.len() ==> m.books[i].id != book_id) ==> r
                == ResponseView::Error(LibraryError::BookNotFound { book_id }) && m2 == m
            &&& ((exists|i: int| 0 <= i < m.books.len() && m.books[i].id == book_id) && (forall|
                i: int,
            |
                0 <= i < m.books.len() && m.books[i].id == book_id ==> m.books[i].is_borrowed))
                ==> r == ResponseView::Error(LibraryError::BookAlreadyBorrowed) && m2 == m
        }),
{
}

/// A fine that a return at `now` owes for a loan: the whole days from the due
/// date to `now`, at 1000 a day.
pub open spec fn fine_owed(loan: Loan, now: u64) -> Fine {
    Fine {
        member_id: loan.member_id,
        book_id: loan.book_id,
        overdue_days: ((now - loan.due_date) / 86400) as u32,
        amount: ((((now - loan.due_date) / 86400) as u32) * 1000) as u32,
        paid: false,
    }
}

/// An open loan of the book to the member, past due at `now`.
pub open spec fn open_and_late(loan: Loan, book_id: u32, member_id: u32, now: u64) -> bool {
    loan.book_id == book_id && loan.member_id == member_id && !loan.returned && now
        > loan.due_date
}

proof fn lemma_late_fines_shape(loans: Seq<Loan>, book_id: u32, member_id: u32, now: u64)
    ensures
        (forall|i: int|
            0 <= i < loans.len() ==> !open_and_late(#[trigger] loans[i], book_id, member_id, now))
            ==> late_fines(loans, book_id, member_id, now).len() == 0,
        forall|j: int|
            0 <= j < late_fines(loans, book_id, member_id, now).len() ==> exists|i: int|
                0 <= i < loans.len() && open_and_late(loans[i], book_id, member_id, now)
                    && #[trigger] late_fines(loans, book_id, member_id, now)[j] == fine_owed(
                    loans[i],
                    now,
                ),
        forall|i: int|
            0 <= i < loans.len() && open_and_late(#[trigger] loans[i], book_id, member_id, now)
                ==> late_fines(loans, book_id, member_id, now).contains(fine_owed(loans[i], now)),
    decreases loans.len(),
{
    if loans.len() > 0 {
        let p = loans.drop_last();
        lemma_late_fines_shape(p, book_id, member_id, now);
        let f = late_fines(loans, book_id, member_id, now);
        let fp = late_fines(p, book_id, member_id, now);
        let last = loans.last();
        if open_and_late(last, book_id, member_id, now) {
            assert(f == fp.push(fine_owed(last, now)));
        } else {
            assert(f == fp);
        }
        assert forall|j: int| 0 <= j < f.len() implies exists|i: int|
            0 <= i < loans.len() && open_and_late(loans[i], book_id, member_id, now)
                && #[trigger] f[j] == fine_owed(loans[i], now) by {
            if j < fp.len() {
                assert(f[j] == fp[j]);
                let i = choose|i: int|
                    0 <= i < p.len() && open_and_late(p[i], book_id, member_id, now) && fp[j]
                        == fine_owed(p[i], now);
                assert(loans[i] == p[i]);
            } else {
                assert(loans[loans.len() - 1] == last);
            }
        }
        assert forall|i: int|
            0 <= i < loans.len() && open_and_late(#[trigger] loans[i], book_id, member_id, now)
                implies f.contains(fine_owed(loans[i], now)) by {
            if i < p.len() {
                assert(loans[i] == p[i]);
                assert(fp.contains(fine_owed(p[i], now)));
                let t = choose|t: int| 0 <= t < fp.len() && fp[t] == fine_owed(p[i], now);
                assert(f[t] == fp[t]);
            } else {
                assert(f[fp.len() as int] == fine_owed(last, now));
            }
        }
        if forall|i: int|
            0 <= i < loans.len() ==> !open_and_late(#[trigger] loans[i], book_id, member_id, now) {
            assert(!open_and_late(loans[loans.len() - 1], book_id, member_id, now));
            assert forall|i: int| 0 <= i < p.len() implies !open_and_late(
                #[trigger] p[i],
                book_id,
                member_id,
                now,
            ) by {
                assert(p[i] == loans[i]);
            }
        }
    }
}

/// Returning a lent-out book with no rating, or with any rating from 1 to 5
/// stars, succeeds: every lent-out copy with the id is back on the shelf with
/// the score, if given, added at the end of its ratings; every other book
/// stays as it was; every open loan of the book to the member is closed. The
/// fines so far are kept, and the return adds, for each open loan of the book
/// to the member that is past due, a fine of 1000 for each whole day late, and
/// adds no other fine.
pub proof fn returning_shelves_and_records_the_rating(
    m: LibraryModel,
    book_id: u32,
    member_id: u32,
    rating: Option<u8>,
    now: u64,
    w: int,
)
    requires
        0 <= w < m.books.len(),
        m.books[w].id == book_id,
        m.books[w].is_borrowed,
        rating matches Some(score) ==> 1 <= score && score <= 5,
    ensures
        ({
            let (m2, r) = m.step(Request::ReturnBook { book_id, member_id, rating }, now);
            &&& r == ResponseView::Success
            &&& m2.books.len() == m.books.len()
            &&& forall|i: int|
                0 <= i < m.books.len() && m.books[i].id == book_id && m.books[i].is_borrowed
                    ==> {
                    &&& !(#[trigger] m2.books[i]).is_borrowed
                    &&& m2.books[i].ratings == match rating {
                        Some(score) => m.books[i].ratings.push(score),
                        None => m.books[i].ratings,
                    }
                    &&& m2.books[i].id == m.books[i].id
                    &&& m2.books[i].title == m.books[i].title
                    &&& m2.books[i].author == m.books[i].author
                    &&& m2.books[i].genre == m.books[i].genre
                }
            &&& forall|i: int|
                0 <= i < m.books.len() && !(m.books[i].id == book_id && m.books[i].is_borrowed)
                    ==> #[trigger] m2.books[i] == m.books[i]
            &&& m2.loans.len() == m.loans.len()
            &&& forall|i: int|
                0 <= i < m.loans.len() ==> (#[trigger] m2.loans[i]) == Loan {
                    returned: m.loans[i].returned || (m.loans[i].book_id == book_id
                        && m.loans[i].member_id == member_id),
                    ..m.loans[i]
                }
            &&& m2.members == m.members
            &&& m2.reservations == m.reservations
            &&& m.fines.len() <= m2.fines.len()
            &&& m2.fines.take(m.fines.len() as int) == m.fines
            &&& (forall|i: int|
                0 <= i < m.loans.len() ==> !open_and_late(
                    #[trigger] m.loans[i],
                    book_id,
                    member_id,
                    now,
                )) ==> m2.fines == m.fines
            &&& forall|j: int|
                m.fines.len() <= j < m2.fines.len() ==> exists|i: int|
                    0 <= i < m.loans.len() && open_and_late(m.loans[i], book_id, member_id, now)
                        && #[trigger] m2.fines[j] == fine_owed(m.loans[i], now)
            &&& forall|i: int|
                0 <= i < m.loans.len() && open_and_late(#[trigger] m.loans[i], book_id, member_id, now)
                    ==> m2.fines.skip(m.fines.len() as int).contains(fine_owed(m.loans[i], now))
        }),
{
    let m2 = m.step(Request::ReturnBook { book_id, member_id, rating }, now).0;
    let added = late_fines(m.loans, book_id, member_id, now);
    lemma_late_fines_shape(m.loans, book_id, member_id, now);
    assert(m2.fines == m.fines + added);
    assert(m2.fines.take(m.fines.len() as int) =~= m.fines);
    assert(m2.fines.skip(m.fines.len() as int) =~= added);
    assert forall|j: int| m.fines.len() <= j < m2.fines.len() implies exists|i: int|
        0 <= i < m.loans.len() && open_and_late(m.loans[i], book_id, member_id, now)
            && #[trigger] m2.fines[j] == fine_owed(m.loans[i], now) by {
        assert(m2.fines[j] == added[j - m.fines.len()]);
    }
    if added.len() == 0 {
        assert(m2.fines =~= m.fines);
    }
}

/// A return with a score outside 1 to 5 is refused as an invalid rating and
/// changes nothing.
pub proof fn returning_with_a_bad_score_is_refused(
    m: LibraryModel,
    book_id: u32,
    member_id: u32,
    score: u8,
    now: u64,
)
    requires
        score < 1 || score > 5,
    ensures
        m.step(Request::ReturnBook { book_id, member_id, rating: Some(score) }, now) == (
            m,
            ResponseView::Error(LibraryError::InvalidRating { score }),
        ),
{
}

/// Editing a book that exists succeeds: every book with the id gets exactly the
/// given title, author and genre and keeps its id, shelf state and ratings;
/// every other book stays as it was. Editing an id that no book carries is
/// refused as not found and changes nothing.
pub proof fn editing_sets_title_author_and_genre(
    m: LibraryModel,
    book_id: u32,
    title: String,
    author: String,
    genre: Genre,
    now: u64,
)
    ensures
        ({
            let (m2, r) = m.step(Request::EditBook { book_id, title, author, genre }, now);
            &&& (exists|i: int| 0 <= i < m.books.len() && m.books[i].id == book_id) ==> {
                &&& r == ResponseView::Success
                &&& m2.books.len() == m.books.len()
                &&& forall|i: int|
                    0 <= i < m.books.len() && m.books[i].id == book_id ==> #[trigger] m2.books[i]
                        == BookView {
                        id: book_id,
                        title: title@,
                        author: author@,
                        genre,
                        is_borrowed: m.books[i].is_borrowed,
                        ratings: m.books[i].ratings,
                    }
                &&& forall|i: int|
                    0 <= i < m.books.len() && m.books[i].id != book_id ==> #[trigger] m2.books[i]
                        == m.books[i]
                &&& m2.members == m.members
                &&& m2.loans == m.loans
                &&& m2.fines == m.fines
            }
            &&& (forall|i: int| 0 <= i < m.books.len() ==> m.books[i].id != book_id) ==> r
                == ResponseView::Error(LibraryError::BookNotFound { book_id }) && m2 == m
        }),
{
}

/// Editing a member that exists succeeds: every member with the id gets
/// exactly the given name; every other member stays as it was.
pub proof fn editing_a_member_sets_the_name(m: LibraryModel, member_id: u32, name: String, now: u64)
    ensures
        ({
            let (m2, r) = m.step(Request::EditMember { member_id, name }, now);
            &&& (exists|i: int| 0 <= i < m.members.len() && m.members[i].id == member_id) ==> {
                &&& r == ResponseView::Success
                &&& m2.members.len() == m.members.len()
                &&& forall|i: int|
                    0 <= i < m.members.len() && m.members[i].id == member_id
                        ==> #[trigger] m2.members[i] == MemberView {
                        id: member_id,
                        name: name@,
                        borrowed_books: m.members[i].borrowed_books,
                    }
                &&& forall|i: int|
                    0 <= i < m.members.len() && m.members[i].id != member_id
                        ==> #[trigger] m2.members[i] == m.members[i]
                &&& m2.books == m.books
            }
            &&& (forall|i: int| 0 <= i < m.members.len() ==> m.members[i].id != member_id) ==> r
                == ResponseView::Error(LibraryError::MemberNotFound { member_id }) && m2 == m
        }),
{
}

/// Reserving records, at the end of the reservations, one made now by the
/// request's member for the request's book, and answers with success.
pub proof fn reserving_records_the_request(
    m: LibraryModel,
    book_id: u32,
    member_id: u32,
    now: u64,
)
    ensures
        ({
            let (m2, r) = m.step(Request::ReserveBook { book_id, member_id }, now);
            &&& r == ResponseView::Success
            &&& m2.reservations.len() == m.reservations.len() + 1
            &&& m2.reservations.last().book_id == book_id
            &&& m2.reservations.last().member_id == member_id
            &&& m2.reservations.last().reservation_date == now
            &&& m2 == LibraryModel {
                reservations: m.reservations.push(
                    Reservation { book_id, member_id, reservation_date: now },
                ),
                ..m
            }
        }),
{
}

/// Listing answers with the whole catalogue, in order.
pub proof fn listing_answers_the_catalogue(m: LibraryModel, now: u64)
    ensures
        m.step(Request::ListBooks, now) == (m, ResponseView::Books(m.books)),
{
}

proof fn lemma_matching_books(books: Seq<BookView>, q: Seq<char>)
    ensures
        forall|i: int|
            0 <= i < books.len() && ((exists|k: int|
                0 <= k && k + q.len() <= books[i].title.len() && #[trigger] books[i].title.subrange(
                    k,
                    k + q.len(),
                ) == q) || (exists|k: int|
                0 <= k && k + q.len() <= books[i].author.len()
                    && #[trigger] books[i].author.subrange(k, k + q.len()) == q))
                ==> #[trigger] matching_books(books, q).contains(books[i]),
        forall|j: int|
            0 <= j < matching_books(books, q).len() ==> {
                let b = #[trigger] matching_books(books, q)[j];
                &&& books.contains(b)
                &&& (exists|k: int|
                    0 <= k && k + q.len() <= b.title.len() && #[trigger] b.title.subrange(
                        k,
                        k + q.len(),
                    ) == q) || (exists|k: int|
                    0 <= k && k + q.len() <= b.author.len() && #[trigger] b.author.subrange(
                        k,
                        k + q.len(),
                    ) == q)
            },
    decreases books.len(),
{
    if books.len() > 0 {
        let p = books.drop_last();
        lemma_matching_books(p, q);
        let r = matching_books(books, q);
        let rp = matching_books(p, q);
        assert forall|i: int|
            0 <= i < books.len() && ((exists|k: int|
                0 <= k && k + q.len() <= books[i].title.len() && #[trigger] books[i].title.subrange(
                    k,
                    k + q.len(),
                ) == q) || (exists|k: int|
                0 <= k && k + q.len() <= books[i].author.len()
                    && #[trigger] books[i].author.subrange(k, k + q.len()) == q)) implies r.contains(
            books[i],
        ) by {
            if i < p.len() {
                assert(p[i] == books[i]);
                assert(rp.contains(p[i]));
                let t = choose|t: int| 0 <= t < rp.len() && rp[t] == p[i];
                if r != rp {
                    assert(r == rp.push(books.last()));
                    assert(r[t] == rp[t]);
                }
            } else {
                let b = books[i];
                if exists|k: int|
                    0 <= k && k + q.len() <= b.title.len() && #[trigger] b.title.subrange(
                        k,
                        k + q.len(),
                    ) == q {
                    let k = choose|k: int|
                        0 <= k && k + q.len() <= b.title.len() && #[trigger] b.title.subrange(
                            k,
                            k + q.len(),
                        ) == q;
                    assert(crate::text::occurs_at(b.title, q, k));
                } else {
                    let k = choose|k: int|
                        0 <= k && k + q.len() <= b.author.len() && #[trigger] b.author.subrange(
                            k,
                            k + q.len(),
                        ) == q;
                    assert(crate::text::occurs_at(b.author, q, k));
                }
                assert(r == rp.push(books.last()));
                assert(r[rp.len() as int] == books[i]);
            }
        }
        assert forall|j: int| 0 <= j < r.len() implies {
            let b = #[trigger] r[j];
            &&& books.contains(b)
            &&& (exists|k: int|
                0 <= k && k + q.len() <= b.title.len() && #[trigger] b.title.subrange(k, k + q.len())
                    == q) || (exists|k: int|
                0 <= k && k + q.len() <= b.author.len() && #[trigger] b.author.subrange(
                    k,
                    k + q.len(),
                ) == q)
        } by {
            if j < rp.len() {
                assert(r[j] == rp[j]);
                let t = choose|t: int| 0 <= t < p.len() && p[t] == rp[j];
                assert(books[t] == p[t]);
            } else {
                assert(r[j] == books.last());
                assert(books[books.len() - 1] == books.last());
            }
        }
    }
}

/// Searching changes nothing and answers with books of the catalogue: every
/// book whose title or author holds the query as a run of characters is among
/// them, and every book among them has the query in its title or its author.
pub proof fn searching_finds_books_by_title_or_author(m: LibraryModel, query: String, now: u64)
    ensures
        ({
            let (m2, r) = m.step(Request::SearchBook { query }, now);
            let q = query@;
            &&& m2 == m
            &&& r is Books
            &&& forall|i: int|
                0 <= i < m.books.len() && ((exists|k: int|
                    0 <= k && k + q.len() <= m.books[i].title.len()
                        && #[trigger] m.books[i].title.subrange(k, k + q.len()) == q) || (exists|
                    k: int,
                |
                    0 <= k && k + q.len() <= m.books[i].author.len()
                        && #[trigger] m.books[i].author.subrange(k, k + q.len()) == q))
                    ==> r->Books_0.contains(m.books[i])
            &&& forall|j: int|
                0 <= j < r->Books_0.len() ==> {
                    let b = #[trigger] r->Books_0[j];
                    &&& m.books.contains(b)
                    &&& (exists|k: int|
                        0 <= k && k + q.len() <= b.title.len() && #[trigger] b.title.subrange(
                            k,
                            k + q.len(),
                        ) == q) || (exists|k: int|
                        0 <= k && k + q.len() <= b.author.len() && #[trigger] b.author.subrange(
                            k,
                            k + q.len(),
                        ) == q)
                }
        }),
{
    lemma_matching_books(m.books, query@);
}

proof fn lemma_matching_members(members: Seq<MemberView>, q: Seq<char>)
    ensures
        forall|i: int|
            0 <= i < members.len() && (exists|k: int|
                0 <= k && k + q.len() <= members[i].name.len()
                    && #[trigger] members[i].name.subrange(k, k + q.len()) == q)
                ==> #[trigger] matching_members(members, q).contains(members[i]),
        forall|j: int|
            0 <= j < matching_members(members, q).len() ==> {
                let p = #[trigger] matching_members(members, q)[j];
                &&& members.contains(p)
                &&& exists|k: int|
                    0 <= k && k + q.len() <= p.name.len() && #[trigger] p.name.subrange(
                        k,
                        k + q.len(),
                    ) == q
            },
    decreases members.len(),
{
    if members.len() > 0 {
        let p = members.drop_last();
        lemma_matching_members(p, q);
        let r = matching_members(members, q);
        let rp = matching_members(p, q);
        assert forall|i: int|
            0 <= i < members.len() && (exists|k: int|
                0 <= k && k + q.len() <= members[i].name.len()
                    && #[trigger] members[i].name.subrange(k, k + q.len()) == q) implies r.contains(
            members[i],
        ) by {
            if i < p.len() {
                assert(p[i] == members[i]);
                assert(rp.contains(p[i]));
                let t = choose|t: int| 0 <= t < rp.len() && rp[t] == p[i];
                if r != rp {
                    assert(r == rp.push(members.last()));
                    assert(r[t] == rp[t]);
                }
            } else {
                let x = members[i];
                let k = choose|k: int|
                    0 <= k && k + q.len() <= x.name.len() && #[trigger] x.name.subrange(
                        k,
                        k + q.len(),
                    ) == q;
                assert(crate::text::occurs_at(x.name, q, k));
                assert(r == rp.push(members.last()));
                assert(r[rp.len() as int] == members[i]);
            }
        }
        assert forall|j: int| 0 <= j < r.len() implies {
            let x = #[trigger] r[j];
            &&& members.contains(x)
            &&& exists|k: int|
                0 <= k && k + q.len() <= x.name.len() && #[trigger] x.name.subrange(k, k + q.len())
                    == q
        } by {
            if j < rp.len() {
                assert(r[j] == rp[j]);
                let t = choose|t: int| 0 <= t < p.len() && p[t] == rp[j];
                assert(members[t] == p[t]);
            } else {
                assert(r[j] == members.last());
                assert(members[members.len() - 1] == members.last());
            }
        }
    }
}

/// Searching members changes nothing and answers with members: every member
/// whose name holds the query is among them, and every one among them does.
pub proof fn searching_finds_members_by_name(m: LibraryModel, query: String, now: u64)
    ensures
        ({
            let (m2, r) = m.step(Request::SearchMember { query }, now);
            let q = query@;
            &&& m2 == m
            &&& r is Members
            &&& forall|i: int|
                0 <= i < m.members.len() && (exists|k: int|
                    0 <= k && k + q.len() <= m.members[i].name.len()
                        && #[trigger] m.members[i].name.subrange(k, k + q.len()) == q)
                    ==> r->Members_0.contains(m.members[i])
            &&& forall|j: int|
                0 <= j < r->Members_0.len() ==> {
                    let x = #[trigger] r->Members_0[j];
                    &&& m.members.contains(x)
                    &&& exists|k: int|
                        0 <= k && k + q.len() <= x.name.len() && #[trigger] x.name.subrange(
                            k,
                            k + q.len(),
                        ) == q
                }
        }),
{
    lemma_matching_members(m.members, query@);
}

/// The report's fine total is the sum of the amounts of all fines: it is 0
/// with no fines, and one more fine of amount `a` raises it by exactly `a`.
pub proof fn report_total_is_the_sum_of_the_fines(m: LibraryModel, fine: Fine)
    requires
        m.fines.len() < 0x1_0000_0000_0000_0000,
    ensures
        (LibraryModel { fines: Seq::empty(), ..m }).report().total_fines == 0,
        (LibraryModel { fines: m.fines.push(fine), ..m }).report().total_fines
            == m.report().total_fines + fine.amount,
{
    let more = m.fines.push(fine);
    assert(more.drop_last() =~= m.fines);
    lemma_fines_total_bound(more);
    assert(more.len() * (u32::MAX as int) < 0x1_0000_0000_0000_0000 * 0x1_0000_0000 + 0x1_0000_0000)
        by (nonlinear_arith)
        requires
            more.len() <= 0x1_0000_0000_0000_0000,
    ;
    assert(fines_total(more) == fines_total(m.fines) + fine.amount);
}

/// The report counts each book once and each lent-out book once more among the
/// lent-out ones: with no books both counts are 0, and one more book raises the
/// total by one and the lent-out count by one exactly when it is lent out.
/// Likewise one more loan raises the open-loan count by one exactly when it is
/// open.
pub proof fn report_counts_books_and_open_loans(m: LibraryModel, book: BookView, loan: Loan)
    requires
        m.books.len() < 0x1_0000_0000_0000_0000 - 1,
        m.loans.len() < 0x1_0000_0000_0000_0000 - 1,
    ensures
        (LibraryModel { books: Seq::empty(), loans: Seq::empty(), ..m }).report().borrowed_books
            == 0,
        (LibraryModel { books: Seq::empty(), loans: Seq::empty(), ..m }).report().active_loans == 0,
        (LibraryModel { books: m.books.push(book), ..m }).report().total_books
            == m.report().total_books + 1,
        (LibraryModel { books: m.books.push(book), ..m }).report().borrowed_books
            == m.report().borrowed_books + (if book.is_borrowed {
            1int
        } else {
            0int
        }),
        (LibraryModel { loans: m.loans.push(loan), ..m }).report().active_loans
            == m.report().active_loans + (if !loan.returned {
            1int
        } else {
            0int
        }),
{
    let more_books = m.books.push(book);
    let more_loans = m.loans.push(loan);
    assert(more_books.drop_last() =~= m.books);
    assert(more_loans.drop_last() =~= m.loans);
    crate::state::lemma_count_borrowed_bound(more_books);
    crate::state::lemma_count_open_loans_bound(more_loans);
    assert(count_borrowed(more_books) == count_borrowed(m.books) + if book.is_borrowed {
        1nat
    } else {
        0nat
    });
    assert(count_open_loans(more_loans) == count_open_loans(m.loans) + if !loan.returned {
        1nat
    } else {
        0nat
    });
}

/// Removing a book that some book carries takes out exactly the last book with
/// the id and keeps every other book in order; removing an id that no book
/// carries is refused as not found and changes nothing.
pub proof fn removing_takes_out_the_last_book_with_the_id(m: LibraryModel, book_id: u32, now: u64)
    ensures
        ({
            let (m2, r) = m.step(Request::RemoveBook { book_id }, now);
            &&& (exists|i: int| 0 <= i < m.books.len() && m.books[i].id == book_id) ==> {
                &&& r == ResponseView::Success
                &&& exists|k: int|
                    0 <= k < m.books.len() && m.books[k].id == book_id && (forall|j: int|
                        k < j < m.books.len() ==> m.books[j].id != book_id) && m2.books
                        == m.books.remove(k)
                &&& m2.members == m.members
                &&& m2.loans == m.loans
                &&& m2.fines == m.fines
                &&& m2.reservations == m.reservations
            }
            &&& (forall|i: int| 0 <= i < m.books.len() ==> m.books[i].id != book_id) ==> r
                == ResponseView::Error(LibraryError::BookNotFound { book_id }) && m2 == m
        }),
{
    crate::state::lemma_last_book_index(m.books, book_id);
    if exists|i: int| 0 <= i < m.books.len() && m.books[i].id == book_id {
        let w = choose|i: int| 0 <= i < m.books.len() && m.books[i].id == book_id;
        assert(crate::state::has_book(m.books, book_id)) by {
            assert(m.books[w].id == book_id);
        }
    }
}

/// Removing a member that some member carries takes out exactly the last
/// member with the id; removing an id that no member carries is refused.
pub proof fn removing_takes_out_the_last_member_with_the_id(
    m: LibraryModel,
    member_id: u32,
    now: u64,
)
    ensures
        ({
            let (m2, r) = m.step(Request::RemoveMember { member_id }, now);
            &&& (exists|i: int| 0 <= i < m.members.len() && m.members[i].id == member_id) ==> {
                &&& r == ResponseView::Success
                &&& exists|k: int|
                    0 <= k < m.members.len() && m.members[k].id == member_id && (forall|j: int|
                        k < j < m.members.len() ==> m.members[j].id != member_id) && m2.members
                        == m.members.remove(k)
                &&& m2.books == m.books
            }
            &&& (forall|i: int| 0 <= i < m.members.len() ==> m.members[i].id != member_id) ==> r
                == ResponseView::Error(LibraryError::MemberNotFound { member_id }) && m2 == m
        }),
{
    crate::state::lemma_last_member_index(m.members, member_id);
    if exists|i: int| 0 <= i < m.members.len() && m.members[i].id == member_id {
        let w = choose|i: int| 0 <= i < m.members.len() && m.members[i].id == member_id;
        assert(crate::state::has_member(m.members, member_id)) by {
            assert(m.members[w].id == member_id);
        }
    }
}

/// Asking for the report changes nothing and answers with the report of the
/// library as it is: its numbers of books and of members are those of the
/// catalogue and of the member list.
pub proof fn generating_a_report_reads_the_library(m: LibraryModel, now: u64)
    requires
        m.books.len() <= u64::MAX,
        m.members.len() <= u64::MAX,
    ensures
        ({
            let (m2, r) = m.step(Request::GenerateReport, now);
            &&& m2 == m
            &&& r == ResponseView::Report(m.report())
            &&& m.report().total_books == m.books.len()
            &&& m.report().total_members == m.members.len()
        }),
{
}

} // verus!

use library::model::{Book, Fine, Genre, Loan, Member, Rating, Reservation};
use library::protocol::{LibraryError, LibraryReport, Request, Response};
use library::state::{LibraryState, FINE_PER_DAY, LOAN_PERIOD_SECONDS, SECONDS_PER_DAY};

fn s(text: &str) -> String {
    text.to_string()
}

fn with_books() -> LibraryState {
    let mut state = LibraryState::new();
    state.add_book(s("The Rust Programming Language"), s("Klabnik"), Genre::Technical);
    state.add_book(s("Dune"), s("Herbert"), Genre::Novel);
    state.add_book(s("Cosmos"), s("Sagan"), Genre::Science);
    state
}

#[test]
fn constructors_fill_every_field() {
    let book = Book::new(3, s("T"), s("A"), Genre::History);
    assert_eq!(book.id, 3);
    assert_eq!(book.title, "T");
    assert_eq!(book.author, "A");
    assert_eq!(book.genre, Genre::History);
    assert!(!book.is_borrowed);
    assert!(book.ratings.is_empty());
    let member = Member::new(4, s("Ann"));
    assert_eq!(member.id, 4);
    assert_eq!(member.name, "Ann");
    assert!(member.borrowed_books.is_empty());
    let loan = Loan::new(1, 2, 10, 20);
    assert_eq!(loan, Loan { book_id: 1, member_id: 2, borrow_date: 10, due_date: 20, returned: false });
    let reservation = Reservation::new(1, 2, 30);
    assert_eq!(reservation, Reservation { book_id: 1, member_id: 2, reservation_date: 30 });
    let fine = Fine::new(2, 1, 3, 3000);
    assert_eq!(fine, Fine { member_id: 2, book_id: 1, overdue_days: 3, amount: 3000, paid: false });
    let rating = Rating::new(1, 2, 5, Some(s("great")));
    assert_eq!(rating.score, 5);
    assert_eq!(rating.comment, Some(s("great")));
}

#[test]
fn ratings_total_sums_the_stars() {
    let mut book = Book::new(1, s("T"), s("A"), Genre::Other);
    assert_eq!(book.ratings_total(), Some(0));
    book.ratings = vec![5, 4, 3];
    assert_eq!(book.ratings_total(), Some(12));
    let copy = book.clone();
    assert_eq!(copy, book);
}

#[test]
fn new_library_is_empty() {
    let state = LibraryState::new();
    assert!(state.books.is_empty());
    assert!(state.members.is_empty());
    assert!(state.loans.is_empty());
    assert!(state.reservations.is_empty());
    assert!(state.fines.is_empty());
    assert_eq!(state.next_book_id, 1);
    assert_eq!(state.next_member_id, 1);
}

#[test]
fn books_get_consecutive_ids() {
    let mut state = LibraryState::new();
    assert_eq!(state.add_book(s("A"), s("X"), Genre::Novel), Response::BooksAdded { book_id: 1 });
    assert_eq!(state.add_book(s("B"), s("Y"), Genre::Other), Response::BooksAdded { book_id: 2 });
    assert_eq!(state.next_book_id, 3);
    let books = state.list_books();
    assert_eq!(books.len(), 2);
    assert_eq!(books[1].title, "B");
    assert_eq!(books[1].genre, Genre::Other);
}

#[test]
fn borrow_lends_the_book_and_records_a_loan() {
    let mut state = with_books();
    assert_eq!(state.borrow_book(2, 7, 1000), Response::Success);
    assert!(state.books[1].is_borrowed);
    assert_eq!(state.loans, vec![Loan::new(2, 7, 1000, 1000 + LOAN_PERIOD_SECONDS)]);
    assert_eq!(LOAN_PERIOD_SECONDS, 1_209_600);
}

#[test]
fn borrow_errors() {
    let mut state = with_books();
    assert_eq!(
        state.borrow_book(9, 7, 1000),
        Response::Error(LibraryError::BookNotFound { book_id: 9 })
    );
    state.borrow_book(1, 7, 1000);
    let before = state.clone();
    assert_eq!(state.borrow_book(1, 8, 2000), Response::Error(LibraryError::BookAlreadyBorrowed));
    assert_eq!(state, before);
}

#[test]
fn return_on_time_has_no_fine() {
    let mut state = with_books();
    state.borrow_book(1, 7, 1000);
    assert_eq!(state.return_book(1, 7, None, 1000 + LOAN_PERIOD_SECONDS), Response::Success);
    assert!(!state.books[0].is_borrowed);
    assert!(state.loans[0].returned);
    assert!(state.fines.is_empty());
}

#[test]
fn late_return_is_fined_per_whole_day() {
    let mut state = with_books();
    state.borrow_book(1, 7, 1000);
    let due = 1000 + LOAN_PERIOD_SECONDS;
    assert_eq!(state.return_book(1, 7, None, due + 3 * SECONDS_PER_DAY + 5), Response::Success);
    assert_eq!(state.fines, vec![Fine::new(7, 1, 3, 3 * FINE_PER_DAY)]);
}

#[test]
fn less_than_a_day_late_gives_a_zero_fine() {
    let mut state = with_books();
    state.borrow_book(1, 7, 0);
    state.return_book(1, 7, None, LOAN_PERIOD_SECONDS + 1);
    assert_eq!(state.fines, vec![Fine::new(7, 1, 0, 0)]);
}

#[test]
fn return_errors() {
    let mut state = with_books();
    assert_eq!(
        state.return_book(9, 7, None, 1000),
        Response::Error(LibraryError::BookNotFound { book_id: 9 })
    );
    let before = state.clone();
    assert_eq!(state.return_book(1, 7, None, 1000), Response::Error(LibraryError::BookNotBorrowed));
    assert_eq!(state, before);
}

#[test]
fn remove_book_and_errors() {
    let mut state = with_books();
    assert_eq!(state.remove_book(2), Response::Success);
    assert_eq!(state.books.len(), 2);
    assert!(state.books.iter().all(|b| b.id != 2));
    assert_eq!(state.remove_book(2), Response::Error(LibraryError::BookNotFound { book_id: 2 }));
    assert_eq!(state.next_book_id, 4);
}

#[test]
fn remove_book_takes_the_last_copy_with_the_id() {
    let mut state = LibraryState::new();
    state.books.push(Book::new(5, s("first"), s("A"), Genre::Novel));
    state.books.push(Book::new(5, s("second"), s("A"), Genre::Novel));
    assert_eq!(state.remove_book(5), Response::Success);
    assert_eq!(state.books.len(), 1);
    assert_eq!(state.books[0].title, "first");
}

#[test]
fn edit_book_and_error() {
    let mut state = with_books();
    assert_eq!(state.edit_book(3, s("Contact"), s("Sagan"), Genre::Novel), Response::Success);
    assert_eq!(state.books[2].title, "Contact");
    assert_eq!(state.books[2].genre, Genre::Novel);
    assert_eq!(state.books[0].title, "The Rust Programming Language");
    assert_eq!(
        state.edit_book(9, s("X"), s("Y"), Genre::Other),
        Response::Error(LibraryError::BookNotFound { book_id: 9 })
    );
}

#[test]
fn search_books_by_title_or_author() {
    let state = with_books();
    let by_title = state.search_books("Rust");
    assert_eq!(by_title.len(), 1);
    assert_eq!(by_title[0].id, 1);
    let by_author = state.search_books("Sagan");
    assert_eq!(by_author.len(), 1);
    assert_eq!(by_author[0].id, 3);
    let both = state.search_books("e");
    assert_eq!(both.iter().map(|b| b.id).collect::<Vec<_>>(), vec![1, 2]);
    assert_eq!(state.search_books("").len(), 3);
    assert!(state.search_books("zzz").is_empty());
}

#[test]
fn members_add_edit_search_remove() {
    let mut state = LibraryState::new();
    assert_eq!(state.add_member(s("Ann Lee")), Response::MemberAdded { member_id: 1 });
    assert_eq!(state.add_member(s("Bob Lee")), Response::MemberAdded { member_id: 2 });
    assert_eq!(state.edit_member(2, s("Bo Li")), Response::Success);
    assert_eq!(state.members[1].name, "Bo Li");
    assert_eq!(
        state.edit_member(5, s("X")),
        Response::Error(LibraryError::MemberNotFound { member_id: 5 })
    );
    assert_eq!(state.search_members("Lee").len(), 1);
    assert_eq!(state.remove_member(1), Response::Success);
    assert_eq!(
        state.remove_member(1),
        Response::Error(LibraryError::MemberNotFound { member_id: 1 })
    );
    assert_eq!(state.members.len(), 1);
    assert_eq!(state.next_member_id, 3);
}

#[test]
fn reservations_are_recorded() {
    let mut state = with_books();
    assert_eq!(state.reserve_book(1, 4, 77), Response::Success);
    assert_eq!(state.reservations, vec![Reservation::new(1, 4, 77)]);
}

#[test]
fn report_counts() {
    let mut state = with_books();
    state.add_member(s("Ann"));
    state.borrow_book(1, 1, 0);
    state.borrow_book(2, 1, 0);
    state.return_book(2, 1, None, LOAN_PERIOD_SECONDS + 2 * SECONDS_PER_DAY);
    assert_eq!(
        state.report(),
        LibraryReport {
            total_books: 3,
            borrowed_books: 1,
            total_members: 1,
            active_loans: 1,
            total_fines: 2000,
        }
    );
}

#[test]
fn handle_request_dispatches() {
    let mut state = LibraryState::new();
    let added = state.handle_request(
        Request::AddBook { title: s("Dune"), author: s("Herbert"), genre: Genre::Novel },
        0,
    );
    assert_eq!(added, Response::BooksAdded { book_id: 1 });
    match state.handle_request(Request::ListBooks, 0) {
        Response::Books(books) => assert_eq!(books[0].title, "Dune"),
        other => panic!("unexpected {:?}", other),
    }
    assert_eq!(
        state.handle_request(Request::BorrowBook { book_id: 1, member_id: 1 }, 10),
        Response::Success
    );
    assert_eq!(
        state.handle_request(Request::ReturnBook { book_id: 1, member_id: 1, rating: None }, 20),
        Response::Success
    );
    assert_eq!(
        state.handle_request(Request::AddMember { name: s("Ann") }, 0),
        Response::MemberAdded { member_id: 1 }
    );
    match state.handle_request(Request::SearchMember { query: s("An") }, 0) {
        Response::Members(members) => assert_eq!(members.len(), 1),
        other => panic!("unexpected {:?}", other),
    }
    match state.handle_request(Request::GenerateReport, 0) {
        Response::Report(report) => assert_eq!(report.total_books, 1),
        other => panic!("unexpected {:?}", other),
    }
}

#[test]
fn limits_are_checked() {
    let mut state = with_books();
    assert!(state.request_within_limits(&Request::ListBooks, 0));
    assert!(!state.request_within_limits(
        &Request::BorrowBook { book_id: 1, member_id: 1 },
        u64::MAX - 5
    ));
    assert!(state.request_within_limits(
        &Request::BorrowBook { book_id: 9, member_id: 1 },
        u64::MAX - 5
    ));
    state.next_book_id = u32::MAX;
    assert!(!state.request_within_limits(
        &Request::AddBook { title: s("a"), author: s("b"), genre: Genre::Other },
        0
    ));
    state.borrow_book(1, 1, 0);
    let far = LOAN_PERIOD_SECONDS + 5_000_000 * SECONDS_PER_DAY;
    assert!(!state.request_within_limits(&Request::ReturnBook { book_id: 1, member_id: 1, rating: None }, far));
    assert!(state.request_within_limits(&Request::ReturnBook { book_id: 1, member_id: 1, rating: None }, 0));
}

#[test]
fn ratings_total_refuses_an_overflowing_total() {
    let mut book = Book::new(1, s("T"), s("A"), Genre::Other);
    book.ratings = vec![255u8; 16_843_010];
    assert_eq!(book.ratings_total(), None);
    book.ratings.pop();
    assert_eq!(book.ratings_total(), Some(u32::MAX));
}

#[test]
fn only_successes_and_new_ids_are_changes() {
    assert!(Response::Success.is_change());
    assert!(Response::BooksAdded { book_id: 1 }.is_change());
    assert!(Response::MemberAdded { member_id: 1 }.is_change());
    assert!(!Response::Books(Vec::new()).is_change());
    assert!(!Response::Members(Vec::new()).is_change());
    assert!(!Response::Error(LibraryError::BookNotBorrowed).is_change());
    let report = LibraryReport {
        total_books: 0,
        borrowed_books: 0,
        total_members: 0,
        active_loans: 0,
        total_fines: 0,
    };
    assert!(!Response::Report(report).is_change());
}

#[test]
fn a_return_may_rate_the_book() {
    let mut state = with_books();
    state.borrow_book(1, 7, 1000);
    assert_eq!(state.return_book(1, 7, Some(4), 2000), Response::Success);
    assert_eq!(state.books[0].ratings, vec![4]);
    assert!(state.books[1].ratings.is_empty());
    state.borrow_book(1, 8, 3000);
    state.handle_request(Request::ReturnBook { book_id: 1, member_id: 8, rating: Some(5) }, 4000);
    assert_eq!(state.books[0].ratings, vec![4, 5]);
    assert_eq!(state.books[0].ratings_total(), Some(9));
}

#[test]
fn a_rating_outside_one_to_five_is_refused() {
    let mut state = with_books();
    state.borrow_book(1, 7, 1000);
    let before = state.clone();
    assert_eq!(
        state.return_book(1, 7, Some(0), 2000),
        Response::Error(LibraryError::InvalidRating { score: 0 })
    );
    assert_eq!(
        state.return_book(1, 7, Some(6), 2000),
        Response::Error(LibraryError::InvalidRating { score: 6 })
    );
    assert_eq!(state, before);
    assert!(state.request_within_limits(
        &Request::ReturnBook { book_id: 1, member_id: 7, rating: Some(9) },
        u64::MAX
    ));
}

#[test]
fn a_rating_on_a_book_that_is_not_lent_is_not_recorded() {
    let mut state = with_books();
    assert_eq!(state.return_book(2, 7, Some(3), 0), Response::Error(LibraryError::BookNotBorrowed));
    assert!(state.books[1].ratings.is_empty());
}

#[test]
fn well_formedness_is_checked() {
    let mut state = with_books();
    state.add_member(s("Ann"));
    assert!(state.is_well_formed());
    assert!(LibraryState::new().is_well_formed());
    let mut duplicate = state.clone();
    duplicate.books[2].id = 1;
    assert!(!duplicate.is_well_formed());
    let mut too_high = state.clone();
    too_high.next_book_id = 3;
    assert!(!too_high.is_well_formed());
    let mut zero = state.clone();
    zero.members[0].id = 0;
    assert!(!zero.is_well_formed());
    state.next_member_id = 0;
    assert!(!state.is_well_formed());
}

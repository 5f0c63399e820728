use library::model::{Fine, Genre};
use library::protocol::{LibraryError, Request, Response};
use library::state::{LibraryState, LOAN_PERIOD_SECONDS, SECONDS_PER_DAY};

fn s(text: &str) -> String {
    text.to_string()
}

fn ids_are_unique(state: &LibraryState) -> bool {
    let books = state.books.iter().enumerate().all(|(i, a)| {
        a.id >= 1
            && a.id < state.next_book_id
            && state.books.iter().skip(i + 1).all(|b| b.id != a.id)
    });
    let members = state.members.iter().enumerate().all(|(i, a)| {
        a.id >= 1
            && a.id < state.next_member_id
            && state.members.iter().skip(i + 1).all(|b| b.id != a.id)
    });
    books && members
}

#[test]
fn ids_stay_unique_across_requests() {
    let mut state = LibraryState::new();
    let requests = vec![
        Request::AddBook { title: s("A"), author: s("X"), genre: Genre::Novel },
        Request::AddBook { title: s("B"), author: s("Y"), genre: Genre::Novel },
        Request::RemoveBook { book_id: 1 },
        Request::AddBook { title: s("C"), author: s("Z"), genre: Genre::Novel },
        Request::AddMember { name: s("Ann") },
        Request::RemoveMember { member_id: 1 },
        Request::AddMember { name: s("Bob") },
        Request::EditBook { book_id: 2, title: s("B2"), author: s("Y"), genre: Genre::Other },
        Request::BorrowBook { book_id: 3, member_id: 2 },
    ];
    for request in requests {
        state.handle_request(request, 100);
        assert!(ids_are_unique(&state));
    }
    assert_eq!(state.books.iter().map(|b| b.id).collect::<Vec<_>>(), vec![2, 3]);
    assert_eq!(state.members[0].id, 2);
}

#[test]
fn refused_requests_change_nothing() {
    let mut state = LibraryState::new();
    state.add_book(s("A"), s("X"), Genre::Novel);
    let before = state.clone();
    let refused = vec![
        Request::BorrowBook { book_id: 5, member_id: 1 },
        Request::ReturnBook { book_id: 1, member_id: 1, rating: None },
        Request::RemoveBook { book_id: 5 },
        Request::EditBook { book_id: 5, title: s("t"), author: s("a"), genre: Genre::Other },
        Request::RemoveMember { member_id: 5 },
        Request::EditMember { member_id: 5, name: s("n") },
        Request::ListBooks,
        Request::SearchBook { query: s("A") },
        Request::SearchMember { query: s("A") },
        Request::GenerateReport,
    ];
    for request in refused {
        state.handle_request(request, 100);
        assert_eq!(state, before);
    }
}

#[test]
fn borrow_then_return_restores_the_catalogue() {
    let mut state = LibraryState::new();
    state.add_book(s("A"), s("X"), Genre::Novel);
    state.add_book(s("B"), s("Y"), Genre::Novel);
    let books = state.books.clone();
    assert_eq!(state.borrow_book(2, 9, 50), Response::Success);
    assert_eq!(state.return_book(2, 9, None, 60), Response::Success);
    assert_eq!(state.books, books);
    assert!(state.loans[0].returned);
    assert!(state.fines.is_empty());
}

#[test]
fn late_borrow_then_return_is_fined() {
    let mut state = LibraryState::new();
    state.add_book(s("A"), s("X"), Genre::Novel);
    state.borrow_book(1, 9, 50);
    state.return_book(1, 9, None, 50 + LOAN_PERIOD_SECONDS + 10 * SECONDS_PER_DAY);
    assert_eq!(state.fines, vec![Fine::new(9, 1, 10, 10_000)]);
}

#[test]
fn a_lent_book_cannot_be_lent_again() {
    let mut state = LibraryState::new();
    state.add_book(s("A"), s("X"), Genre::Novel);
    state.borrow_book(1, 9, 50);
    assert_eq!(state.borrow_book(1, 3, 60), Response::Error(LibraryError::BookAlreadyBorrowed));
    assert_eq!(state.loans.len(), 1);
}

#[test]
fn removed_book_and_member_are_gone() {
    let mut state = LibraryState::new();
    state.add_book(s("A"), s("X"), Genre::Novel);
    state.add_member(s("Ann"));
    assert_eq!(state.remove_book(1), Response::Success);
    assert_eq!(state.remove_book(1), Response::Error(LibraryError::BookNotFound { book_id: 1 }));
    assert_eq!(state.remove_member(1), Response::Success);
    assert_eq!(
        state.remove_member(1),
        Response::Error(LibraryError::MemberNotFound { member_id: 1 })
    );
}

#[test]
fn added_book_is_found_by_its_title() {
    let mut state = LibraryState::new();
    state.add_book(s("Dune"), s("Herbert"), Genre::Novel);
    let before = state.search_books("Dune Messiah");
    state.add_book(s("Dune Messiah"), s("Herbert"), Genre::Novel);
    let after = state.search_books("Dune Messiah");
    assert_eq!(after.len(), before.len() + 1);
    assert_eq!(after.last().unwrap().id, 2);
}

#[test]
fn history_is_kept() {
    let mut state = LibraryState::new();
    state.add_book(s("A"), s("X"), Genre::Novel);
    state.borrow_book(1, 9, 0);
    state.return_book(1, 9, None, LOAN_PERIOD_SECONDS + SECONDS_PER_DAY);
    state.reserve_book(1, 9, 5);
    let fines = state.fines.clone();
    let reservations = state.reservations.clone();
    state.borrow_book(1, 9, 10);
    state.return_book(1, 9, None, 20);
    state.remove_book(1);
    assert_eq!(&state.fines[..fines.len()], &fines[..]);
    assert_eq!(&state.reservations[..reservations.len()], &reservations[..]);
    assert_eq!(state.loans.len(), 2);
    assert!(state.loans[0].returned);
    assert_eq!(state.next_book_id, 2);
}

#[test]
fn an_earlier_late_loan_is_not_fined_again() {
    let mut state = LibraryState::new();
    state.add_book(s("A"), s("X"), Genre::Novel);
    state.borrow_book(1, 9, 0);
    state.return_book(1, 9, None, LOAN_PERIOD_SECONDS + 2 * SECONDS_PER_DAY);
    assert_eq!(state.fines, vec![Fine::new(9, 1, 2, 2000)]);
    let later = LOAN_PERIOD_SECONDS + 30 * SECONDS_PER_DAY;
    state.borrow_book(1, 9, later);
    state.return_book(1, 9, None, later + 1);
    assert_eq!(state.fines, vec![Fine::new(9, 1, 2, 2000)]);
    assert!(state.loans.iter().all(|l| l.returned));
}

//! The messages that a client sends and the server answers.
use vstd::prelude::*;
use crate::model::{Book, BookView, Genre, Member, MemberView};

verus! {

/// What a librarian asks the server to do. A return may carry the reader's
/// rating of the book, from 1 to 5 stars.
#[derive(Clone, Debug, PartialEq)]
pub enum Request {
    AddBook { title: String, author: String, genre: Genre },
    ListBooks,
    BorrowBook { book_id: u32, member_id: u32 },
    ReturnBook { book_id: u32, member_id: u32, rating: Option<u8> },
    RemoveBook { book_id: u32 },
    EditBook { book_id: u32, title: String, author: String, genre: Genre },
    SearchBook { query: String },
    AddMember { name: String },
    RemoveMember { member_id: u32 },
    EditMember { member_id: u32, name: String },
    SearchMember { query: String },
    ReserveBook { book_id: u32, member_id: u32 },
    GenerateReport,
}

/// Why a request was refused.
#[derive(Clone, Copy, Debug, PartialEq, Eq, Structural)]
pub enum LibraryError {
    BookNotFound { book_id: u32 },
    MemberNotFound { member_id: u32 },
    BookAlreadyBorrowed,
    BookNotBorrowed,
    InvalidRating { score: u8 },
}

/// A statistical snapshot of the library.
#[derive(Clone, Copy, Debug, PartialEq, Eq, Structural)]
pub struct LibraryReport {
    pub total_books: u64,
    pub borrowed_books: u64,
    pub total_members: u64,
    pub active_loans: u64,
    pub total_fines: u128,
}

/// The server's answer to a request.
#[derive(Clone, Debug, PartialEq)]
pub enum Response {
    Success,
    Books(Vec<Book>),
    Members(Vec<Member>),
    BooksAdded { book_id: u32 },
    MemberAdded { member_id: u32 },
    Report(LibraryReport),
    Error(LibraryError),
}

/// An answer as a mathematical value.
pub enum ResponseView {
    Success,
    Books(Seq<BookView>),
    Members(Seq<MemberView>),
    BooksAdded { book_id: u32 },
    MemberAdded { member_id: u32 },
    Report(LibraryReport),
    Error(LibraryError),
}

/// The views of a sequence of books.
pub open spec fn books_view(books: Seq<Book>) -> Seq<BookView> {
    books.map_values(|b: Book| b@)
}

/// The views of a sequence of members.
pub open spec fn members_view(members: Seq<Member>) -> Seq<MemberView> {
    members.map_values(|m: Member| m@)
}

impl View for Response {
    type V = ResponseView;

    open spec fn view(&self) -> ResponseView {
        match self {
            Response::Success => ResponseView::Success,
            Response::Books(books) => ResponseView::Books(books_view(books@)),
            Response::Members(members) => ResponseView::Members(members_view(members@)),
            Response::BooksAdded { book_id } => ResponseView::BooksAdded { book_id: *book_id },
            Response::MemberAdded { member_id } => ResponseView::MemberAdded {
                member_id: *member_id,
            },
            Response::Report(report) => ResponseView::Report(*report),
            Response::Error(e) => ResponseView::Error(*e),
        }
    }
}

impl Response {
    /// Whether the answer reports a change of the library (a success or a new
    /// id); every other answer leaves the library as it was, so only after
    /// these does the server store it again.
    pub fn is_change(&self) -> (change: bool)
        ensures
            change == (self@ is Success || self@ is BooksAdded || self@ is MemberAdded),
    {
        match self {
            Response::Success => true,
            Response::BooksAdded { .. } => true,
            Response::MemberAdded { .. } => true,
            _ => false,
        }
    }
}

} // verus!

//! A library management system: books, members, loans, reservations and
//! fines, with the request/response protocol that a server answers and the
//! parsers that a client uses to build requests.
//!
//! Every operation is stated over a mathematical model (`state::LibraryModel`)
//! and proved against it. `laws` holds the properties that span requests;
//! `request_laws` and `text_laws` state what each request and each text
//! function does, directly over the records and over all inputs.
pub mod model;
pub mod protocol;
pub mod text;
pub mod state;
pub mod menu;
pub mod laws;
pub mod request_laws;
pub mod text_laws;

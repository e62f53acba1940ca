use vstd::prelude::*;

verus! {

/// The fields of a book before the store has assigned it an identity.
#[derive(Debug, Clone)]
pub struct NewBook {
    pub title: String,
    pub author: String,
    pub publication_year: i32,
    pub isbn: Option<String>,
    pub availability_status: bool,
}

/// A book record. `availability_status` is true exactly while no open loan
/// references the book; the loan lifecycle engine is the only writer of that
/// flag once the book exists.
#[derive(Debug, Clone)]
pub struct Book {
    pub book_id: u128,
    pub title: String,
    pub author: String,
    pub publication_year: i32,
    pub isbn: Option<String>,
    pub availability_status: bool,
}

} // verus!

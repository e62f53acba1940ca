//! A library-management core: books, members and loans, with the loan
//! lifecycle engine that keeps the three records consistent.
#![verifier::loop_isolation(false)]

pub mod books;
pub mod dates;
pub mod errors;
pub mod ids;
pub mod laws;
pub mod library;
pub mod loans;
pub mod members;
pub mod model;

use vstd::prelude::*;

verus! {

/// The error taxonomy of the lending library.
///
/// `NotFound` and `PreconditionFailed` are client faults that the caller can
/// act on; `ValidationError` marks malformed input; `StorageError` stands for
/// a store mutation that could not be carried out; `IntegrityViolation` marks
/// a loan whose member reference cannot be resolved, which is never a normal
/// outcome of a well-formed store.
#[derive(Clone, Copy, Debug, PartialEq, Eq, Structural)]
pub enum LibError {
    /// A referenced book, member or loan does not exist.
    NotFound,
    /// A business rule forbids the operation: the book is unavailable, the
    /// member is invalid, the loan is not open, or the requested closing
    /// status is not a terminal one.
    PreconditionFailed,
    /// The due timestamp does not correspond to any calendar date.
    ValidationError,
    /// The store could not carry out a mutation (a duplicate identifier on
    /// insert, or a counter that cannot grow further).
    StorageError,
    /// A loan references a member that cannot be found while closing it.
    IntegrityViolation,
}

} // verus!

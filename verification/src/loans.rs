use vstd::prelude::*;
use crate::dates::Date;
use crate::errors::LibError;

verus! {

/// The lifecycle state of a loan. A loan starts `Open` and moves exactly
/// once, to `Returned` or to `Overdue`; both are terminal.
#[derive(Debug, Clone, Copy, PartialEq, Eq, Structural)]
pub enum LoanStatus {
    Open,
    Returned,
    Overdue,
}

impl LoanStatus {
    /// The on-disk spelling of each status.
    pub open spec fn label_spec(self) -> Seq<u8> {
        match self {
            LoanStatus::Open => seq![111, 112, 101, 110],
            LoanStatus::Returned => seq![114, 101, 116, 117, 114, 110, 101, 100],
            LoanStatus::Overdue => seq![111, 118, 101, 114, 100, 117, 101],
        }
    }

    /// Encode a status into its on-disk spelling.
    pub fn label(&self) -> (r: Vec<u8>)
        ensures
            r@ == self.label_spec(),
    {
        let v: Vec<u8> = match self {
            LoanStatus::Open => vec![111, 112, 101, 110],
            LoanStatus::Returned => vec![114, 101, 116, 117, 114, 110, 101, 100],
            LoanStatus::Overdue => vec![111, 118, 101, 114, 100, 117, 101],
        };
        proof {
            assert(v@ =~= self.label_spec());
        }
        v
    }

    /// What decoding a spelling yields: the status it encodes, or a
    /// validation error for anything unrecognized.
    pub open spec fn parse_label_spec(s: Seq<u8>) -> Result<LoanStatus, LibError> {
        if s == LoanStatus::Open.label_spec() {
            Ok(LoanStatus::Open)
        } else if s == LoanStatus::Returned.label_spec() {
            Ok(LoanStatus::Returned)
        } else if s == LoanStatus::Overdue.label_spec() {
            Ok(LoanStatus::Overdue)
        } else {
            Err(LibError::ValidationError)
        }
    }

    /// Decode an on-disk spelling; unrecognized spellings are rejected
    /// rather than mapped to any status.
    pub fn parse_label(bytes: &[u8]) -> (r: Result<LoanStatus, LibError>)
        ensures
            r == Self::parse_label_spec(bytes@),
    {
        if bytes.len() == 4 && bytes[0] == 111 && bytes[1] == 112 && bytes[2] == 101
            && bytes[3] == 110 {
            proof {
                assert(bytes@ =~= LoanStatus::Open.label_spec());
            }
            Ok(LoanStatus::Open)
        } else if bytes.len() == 8 && bytes[0] == 114 && bytes[1] == 101 && bytes[2] == 116
            && bytes[3] == 117 && bytes[4] == 114 && bytes[5] == 110 && bytes[6] == 101
            && bytes[7] == 100 {
            proof {
                assert(bytes@ =~= LoanStatus::Returned.label_spec());
            }
            Ok(LoanStatus::Returned)
        } else if bytes.len() == 7 && bytes[0] == 111 && bytes[1] == 118 && bytes[2] == 101
            && bytes[3] == 114 && bytes[4] == 100 && bytes[5] == 117 && bytes[6] == 101 {
            proof {
                assert(bytes@ =~= LoanStatus::Overdue.label_spec());
            }
            Ok(LoanStatus::Overdue)
        } else {
            proof {
                assert(bytes@ != LoanStatus::Open.label_spec());
                assert(bytes@ != LoanStatus::Returned.label_spec());
                assert(bytes@ != LoanStatus::Overdue.label_spec());
            }
            Err(LibError::ValidationError)
        }
    }
}

/// Decoding is the inverse of encoding: every status comes back from its own
/// spelling, for all three statuses.
pub proof fn lemma_label_roundtrip(s: LoanStatus)
    ensures
        LoanStatus::parse_label_spec(s.label_spec()) == Ok::<LoanStatus, LibError>(s),
{
    match s {
        LoanStatus::Open => {}
        LoanStatus::Returned => {
            assert(s.label_spec() != LoanStatus::Open.label_spec());
        }
        LoanStatus::Overdue => {
            assert(s.label_spec() != LoanStatus::Open.label_spec());
            assert(s.label_spec() != LoanStatus::Returned.label_spec());
        }
    }
}

/// A request to open a loan: who borrows which book, and the due timestamp
/// in seconds since the epoch.
#[derive(Debug, Clone, Copy)]
pub struct NewLoan {
    pub member_id: u128,
    pub book_id: u128,
    pub due_date: i64,
}

/// A loan record. It references its book and member by identity only, and
/// carries a return date exactly while its status is `Returned`.
#[derive(Debug, Clone, Copy)]
pub struct Loan {
    pub loan_id: u128,
    pub member_id: u128,
    pub book_id: u128,
    pub loan_date: Date,
    pub due_date: Date,
    pub return_date: Option<Date>,
    pub status: LoanStatus,
}

} // verus!

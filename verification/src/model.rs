use vstd::prelude::*;
use crate::books::Book;
use crate::dates::{Date, date_of_timestamp, timestamp_has_date};
use crate::errors::LibError;
use crate::loans::{Loan, LoanStatus};
use crate::members::Member;

verus! {

/// The mathematical model of the whole store: the three record tables as
/// sequences, in insertion order.
#[verifier::ext_equal]
pub ghost struct LibView {
    pub books: Seq<Book>,
    pub members: Seq<Member>,
    pub loans: Seq<Loan>,
}

// ---------------------------------------------------------------------------
// First-match lookups, mirroring how the store resolves an identifier.
// ---------------------------------------------------------------------------

/// The index of the first book with the given identity, if any.
pub open spec fn book_at(s: Seq<Book>, id: u128) -> Option<int>
    decreases s.len(),
{
    if s.len() == 0 {
        None
    } else if s[0].book_id == id {
        Some(0)
    } else {
        match book_at(s.drop_first(), id) {
            Some(i) => Some(i + 1),
            None => None,
        }
    }
}

/// The index of the first member with the given identity, if any.
pub open spec fn member_at(s: Seq<Member>, id: u128) -> Option<int>
    decreases s.len(),
{
    if s.len() == 0 {
        None
    } else if s[0].member_id == id {
        Some(0)
    } else {
        match member_at(s.drop_first(), id) {
            Some(i) => Some(i + 1),
            None => None,
        }
    }
}

/// The index of the first loan with the given identity, if any.
pub open spec fn loan_at(s: Seq<Loan>, id: u128) -> Option<int>
    decreases s.len(),
{
    if s.len() == 0 {
        None
    } else if s[0].loan_id == id {
        Some(0)
    } else {
        match loan_at(s.drop_first(), id) {
            Some(i) => Some(i + 1),
            None => None,
        }
    }
}

/// `book_at` finds exactly the first index carrying the identity, and finds
/// nothing only when no index carries it.
pub proof fn lemma_book_at(s: Seq<Book>, id: u128)
    ensures
        match book_at(s, id) {
            Some(i) => 0 <= i < s.len() && s[i].book_id == id && (forall|j: int|
                0 <= j < i ==> s[j].book_id != id),
            None => forall|j: int| 0 <= j < s.len() ==> s[j].book_id != id,
        },
    decreases s.len(),
{
    if s.len() != 0 && s[0].book_id != id {
        lemma_book_at(s.drop_first(), id);
        assert(forall|j: int| 0 <= j < s.drop_first().len() ==> s.drop_first()[j] == s[j + 1]);
        match book_at(s.drop_first(), id) {
            Some(i) => {
                assert(s[i + 1] == s.drop_first()[i]);
                assert forall|j: int| 0 <= j < i + 1 implies s[j].book_id != id by {
                    if j > 0 {
                        assert(s[j] == s.drop_first()[j - 1]);
                    }
                }
            }
            None => {
                assert forall|j: int| 0 <= j < s.len() implies s[j].book_id != id by {
                    if j > 0 {
                        assert(s[j] == s.drop_first()[j - 1]);
                    }
                }
            }
        }
    }
}

/// `member_at` finds exactly the first index carrying the identity, and
/// finds nothing only when no index carries it.
pub proof fn lemma_member_at(s: Seq<Member>, id: u128)
    ensures
        match member_at(s, id) {
            Some(i) => 0 <= i < s.len() && s[i].member_id == id && (forall|j: int|
                0 <= j < i ==> s[j].member_id != id),
            None => forall|j: int| 0 <= j < s.len() ==> s[j].member_id != id,
        },
    decreases s.len(),
{
    if s.len() != 0 && s[0].member_id != id {
        lemma_member_at(s.drop_first(), id);
        assert(forall|j: int| 0 <= j < s.drop_first().len() ==> s.drop_first()[j] == s[j + 1]);
        match member_at(s.drop_first(), id) {
            Some(i) => {
                assert(s[i + 1] == s.drop_first()[i]);
                assert forall|j: int| 0 <= j < i + 1 implies s[j].member_id != id by {
                    if j > 0 {
                        assert(s[j] == s.drop_first()[j - 1]);
                    }
                }
            }
            None => {
                assert forall|j: int| 0 <= j < s.len() implies s[j].member_id != id by {
                    if j > 0 {
                        assert(s[j] == s.drop_first()[j - 1]);
                    }
                }
            }
        }
    }
}

/// `loan_at` finds exactly the first index carrying the identity, and finds
/// nothing only when no index carries it.
pub proof fn lemma_loan_at(s: Seq<Loan>, id: u128)
    ensures
        match loan_at(s, id) {
            Some(i) => 0 <= i < s.len() && s[i].loan_id == id && (forall|j: int|
                0 <= j < i ==> s[j].loan_id != id),
            None => forall|j: int| 0 <= j < s.len() ==> s[j].loan_id != id,
        },
    decreases s.len(),
{
    if s.len() != 0 && s[0].loan_id != id {
        lemma_loan_at(s.drop_first(), id);
        assert(forall|j: int| 0 <= j < s.drop_first().len() ==> s.drop_first()[j] == s[j + 1]);
        match loan_at(s.drop_first(), id) {
            Some(i) => {
                assert(s[i + 1] == s.drop_first()[i]);
                assert forall|j: int| 0 <= j < i + 1 implies s[j].loan_id != id by {
                    if j > 0 {
                        assert(s[j] == s.drop_first()[j - 1]);
                    }
                }
            }
            None => {
                assert forall|j: int| 0 <= j < s.len() implies s[j].loan_id != id by {
                    if j > 0 {
                        assert(s[j] == s.drop_first()[j - 1]);
                    }
                }
            }
        }
    }
}

// ---------------------------------------------------------------------------
// Loan counters: how many open loans touch a given book or member.
// ---------------------------------------------------------------------------

/// Whether a loan keeps the given book out of circulation.
pub open spec fn holds_book(l: Loan, book_id: u128) -> bool {
    l.status == LoanStatus::Open && l.book_id == book_id
}

/// Whether a loan is charged to the given member.
pub open spec fn held_by_member(l: Loan, member_id: u128) -> bool {
    l.status == LoanStatus::Open && l.member_id == member_id
}

/// The number of open loans on the given book.
pub open spec fn open_loans_for_book(s: Seq<Loan>, book_id: u128) -> nat
    decreases s.len(),
{
    if s.len() == 0 {
        0
    } else {
        open_loans_for_book(s.drop_last(), book_id) + (if holds_book(s.last(), book_id) {
            1nat
        } else {
            0nat
        })
    }
}

/// The number of open loans charged to the given member.
pub open spec fn open_loans_for_member(s: Seq<Loan>, member_id: u128) -> nat
    decreases s.len(),
{
    if s.len() == 0 {
        0
    } else {
        open_loans_for_member(s.drop_last(), member_id) + (if held_by_member(
            s.last(),
            member_id,
        ) {
            1nat
        } else {
            0nat
        })
    }
}

/// Appending a loan raises a book's open count by its own contribution.
pub proof fn lemma_book_count_push(s: Seq<Loan>, l: Loan, book_id: u128)
    ensures
        open_loans_for_book(s.push(l), book_id) == open_loans_for_book(s, book_id) + (
        if holds_book(l, book_id) {
            1nat
        } else {
            0nat
        }),
{
    assert(s.push(l).drop_last() =~= s);
}

/// Appending a loan raises a member's open count by its own contribution.
pub proof fn lemma_member_count_push(s: Seq<Loan>, l: Loan, member_id: u128)
    ensures
        open_loans_for_member(s.push(l), member_id) == open_loans_for_member(s, member_id) + (
        if held_by_member(l, member_id) {
            1nat
        } else {
            0nat
        }),
{
    assert(s.push(l).drop_last() =~= s);
}

/// Replacing one loan moves a book's open count by the difference of the
/// two loans' contributions.
pub proof fn lemma_book_count_update(s: Seq<Loan>, i: int, l: Loan, book_id: u128)
    requires
        0 <= i < s.len(),
    ensures
        open_loans_for_book(s.update(i, l), book_id) + (if holds_book(s[i], book_id) {
            1nat
        } else {
            0nat
        }) == open_loans_for_book(s, book_id) + (if holds_book(l, book_id) {
            1nat
        } else {
            0nat
        }),
    decreases s.len(),
{
    if i == s.len() - 1 {
        assert(s.update(i, l).drop_last() =~= s.drop_last());
        assert(s.update(i, l).last() == l);
    } else {
        assert(s.update(i, l).drop_last() =~= s.drop_last().update(i, l));
        assert(s.update(i, l).last() == s.last());
        lemma_book_count_update(s.drop_last(), i, l, book_id);
    }
}

/// Replacing one loan moves a member's open count by the difference of the
/// two loans' contributions.
pub proof fn lemma_member_count_update(s: Seq<Loan>, i: int, l: Loan, member_id: u128)
    requires
        0 <= i < s.len(),
    ensures
        open_loans_for_member(s.update(i, l), member_id) + (if held_by_member(s[i], member_id) {
            1nat
        } else {
            0nat
        }) == open_loans_for_member(s, member_id) + (if held_by_member(l, member_id) {
            1nat
        } else {
            0nat
        }),
    decreases s.len(),
{
    if i == s.len() - 1 {
        assert(s.update(i, l).drop_last() =~= s.drop_last());
        assert(s.update(i, l).last() == l);
    } else {
        assert(s.update(i, l).drop_last() =~= s.drop_last().update(i, l));
        assert(s.update(i, l).last() == s.last());
        lemma_member_count_update(s.drop_last(), i, l, member_id);
    }
}

/// A book's open count is zero exactly when no loan holds the book.
pub proof fn lemma_book_count_zero(s: Seq<Loan>, book_id: u128)
    ensures
        (open_loans_for_book(s, book_id) == 0) <==> (forall|j: int|
            0 <= j < s.len() ==> !holds_book(s[j], book_id)),
    decreases s.len(),
{
    if s.len() != 0 {
        lemma_book_count_zero(s.drop_last(), book_id);
        assert(forall|j: int| 0 <= j < s.len() - 1 ==> s.drop_last()[j] == s[j]);
        assert(s.last() == s[s.len() - 1]);
    }
}

/// A loan that holds the book witnesses that the book's open count is at
/// least one.
pub proof fn lemma_book_count_at_least_one(s: Seq<Loan>, i: int, book_id: u128)
    requires
        0 <= i < s.len(),
        holds_book(s[i], book_id),
    ensures
        open_loans_for_book(s, book_id) >= 1,
    decreases s.len(),
{
    if i == s.len() - 1 {
    } else {
        assert(s.drop_last()[i] == s[i]);
        lemma_book_count_at_least_one(s.drop_last(), i, book_id);
    }
}

/// A loan charged to the member witnesses that the member's open count is
/// at least one.
pub proof fn lemma_member_count_at_least_one(s: Seq<Loan>, i: int, member_id: u128)
    requires
        0 <= i < s.len(),
        held_by_member(s[i], member_id),
    ensures
        open_loans_for_member(s, member_id) >= 1,
    decreases s.len(),
{
    if i == s.len() - 1 {
    } else {
        assert(s.drop_last()[i] == s[i]);
        lemma_member_count_at_least_one(s.drop_last(), i, member_id);
    }
}

/// Lookups go by identity alone: two book tables that agree on every
/// identity resolve every identity alike.
pub proof fn lemma_book_at_same_ids(s1: Seq<Book>, s2: Seq<Book>, id: u128)
    requires
        s1.len() == s2.len(),
        forall|j: int| 0 <= j < s1.len() ==> s1[j].book_id == s2[j].book_id,
    ensures
        book_at(s1, id) == book_at(s2, id),
    decreases s1.len(),
{
    if s1.len() != 0 {
        assert(forall|j: int|
            0 <= j < s1.drop_first().len() ==> s1.drop_first()[j] == s1[j + 1]
                && s2.drop_first()[j] == s2[j + 1]);
        lemma_book_at_same_ids(s1.drop_first(), s2.drop_first(), id);
    }
}

/// Lookups go by identity alone: two member tables that agree on every
/// identity resolve every identity alike.
pub proof fn lemma_member_at_same_ids(s1: Seq<Member>, s2: Seq<Member>, id: u128)
    requires
        s1.len() == s2.len(),
        forall|j: int| 0 <= j < s1.len() ==> s1[j].member_id == s2[j].member_id,
    ensures
        member_at(s1, id) == member_at(s2, id),
    decreases s1.len(),
{
    if s1.len() != 0 {
        assert(forall|j: int|
            0 <= j < s1.drop_first().len() ==> s1.drop_first()[j] == s1[j + 1]
                && s2.drop_first()[j] == s2[j + 1]);
        lemma_member_at_same_ids(s1.drop_first(), s2.drop_first(), id);
    }
}

/// Lookups go by identity alone: two loan tables that agree on every
/// identity resolve every identity alike.
pub proof fn lemma_loan_at_same_ids(s1: Seq<Loan>, s2: Seq<Loan>, id: u128)
    requires
        s1.len() == s2.len(),
        forall|j: int| 0 <= j < s1.len() ==> s1[j].loan_id == s2[j].loan_id,
    ensures
        loan_at(s1, id) == loan_at(s2, id),
    decreases s1.len(),
{
    if s1.len() != 0 {
        assert(forall|j: int|
            0 <= j < s1.drop_first().len() ==> s1.drop_first()[j] == s1[j + 1]
                && s2.drop_first()[j] == s2[j + 1]);
        lemma_loan_at_same_ids(s1.drop_first(), s2.drop_first(), id);
    }
}

/// Whether a loan is open or overdue for the given member.
pub open spec fn counts_against_member(l: Loan, member_id: u128) -> bool {
    (l.status == LoanStatus::Open || l.status == LoanStatus::Overdue) && l.member_id == member_id
}

/// The number of loans that are open or overdue for the given member.
pub open spec fn open_or_overdue_for_member(s: Seq<Loan>, member_id: u128) -> nat
    decreases s.len(),
{
    if s.len() == 0 {
        0
    } else {
        open_or_overdue_for_member(s.drop_last(), member_id) + (if counts_against_member(
            s.last(),
            member_id,
        ) {
            1nat
        } else {
            0nat
        })
    }
}

/// While a member has no overdue loan, the open count and the open-or-
/// overdue count agree.
pub proof fn lemma_counts_agree_without_overdue(s: Seq<Loan>, member_id: u128)
    requires
        forall|j: int|
            0 <= j < s.len() ==> !((#[trigger] s[j].status) == LoanStatus::Overdue && s[j].member_id
                == member_id),
    ensures
        open_or_overdue_for_member(s, member_id) == open_loans_for_member(s, member_id),
    decreases s.len(),
{
    if s.len() != 0 {
        assert(forall|j: int| 0 <= j < s.len() - 1 ==> s.drop_last()[j] == s[j]);
        assert(s.last() == s[s.len() - 1]);
        lemma_counts_agree_without_overdue(s.drop_last(), member_id);
    }
}

/// Taking a record out and putting another back in the same place is the
/// same as replacing it in place.
pub proof fn lemma_remove_insert<T>(s: Seq<T>, i: int, x: T)
    requires
        0 <= i < s.len(),
    ensures
        s.remove(i).insert(i, x) =~= s.update(i, x),
{
}

// ---------------------------------------------------------------------------
// Well-formedness: the cross-entity invariants the engine maintains.
// ---------------------------------------------------------------------------

/// Every table resolves each identity to at most one record.
pub open spec fn ids_unique(v: LibView) -> bool {
    &&& forall|i: int, j: int|
        0 <= i < j < v.books.len() ==> v.books[i].book_id != v.books[j].book_id
    &&& forall|i: int, j: int|
        0 <= i < j < v.members.len() ==> v.members[i].member_id != v.members[j].member_id
    &&& forall|i: int, j: int|
        0 <= i < j < v.loans.len() ==> v.loans[i].loan_id != v.loans[j].loan_id
}

/// Whether some book carries the given identity.
pub open spec fn has_book(v: LibView, id: u128) -> bool {
    exists|k: int| 0 <= k < v.books.len() && (#[trigger] v.books[k]).book_id == id
}

/// Every open loan references a book that exists.
pub open spec fn open_loans_anchored(v: LibView) -> bool {
    forall|i: int|
        0 <= i < v.loans.len() && (#[trigger] v.loans[i]).status == LoanStatus::Open ==> has_book(
            v,
            v.loans[i].book_id,
        )
}

/// A book is available exactly while no open loan holds it, and at most one
/// open loan ever holds it.
pub open spec fn availability_consistent(v: LibView) -> bool {
    forall|i: int|
        0 <= i < v.books.len() ==> {
            &&& open_loans_for_book(v.loans, #[trigger] v.books[i].book_id) <= 1
            &&& (v.books[i].availability_status <==> open_loans_for_book(
                v.loans,
                v.books[i].book_id,
            ) == 0)
        }
}

/// Every member's borrowed counter equals the number of loans open for the
/// member.
pub open spec fn counts_consistent(v: LibView) -> bool {
    forall|i: int|
        0 <= i < v.members.len() ==> v.members[i].borrowed == open_loans_for_member(
            v.loans,
            #[trigger] v.members[i].member_id,
        )
}

/// A loan carries a return date exactly while it is returned.
pub open spec fn return_dates_consistent(v: LibView) -> bool {
    forall|i: int|
        0 <= i < v.loans.len() ==> ((#[trigger] v.loans[i].return_date) is Some <==> v.loans[i].status
            == LoanStatus::Returned)
}

/// The store invariant: unique identities, anchored open loans, availability
/// flags and borrowed counters in step with the loans, and return dates in
/// step with the statuses.
pub open spec fn wf(v: LibView) -> bool {
    &&& ids_unique(v)
    &&& open_loans_anchored(v)
    &&& availability_consistent(v)
    &&& counts_consistent(v)
    &&& return_dates_consistent(v)
}

// ---------------------------------------------------------------------------
// The loan lifecycle engine, as transitions on the model.
// ---------------------------------------------------------------------------

/// Why a loan request would be refused, checked in the order the engine
/// checks: the book must exist, be available, the member must exist, and the
/// due timestamp must fall on a calendar date.
pub open spec fn open_refusal(v: LibView, member_id: u128, book_id: u128, due_ts: i64) -> Option<
    LibError,
> {
    match book_at(v.books, book_id) {
        None => Some(LibError::NotFound),
        Some(bi) => if !v.books[bi].availability_status {
            Some(LibError::PreconditionFailed)
        } else if member_at(v.members, member_id) is None {
            Some(LibError::PreconditionFailed)
        } else if !timestamp_has_date(due_ts) {
            Some(LibError::ValidationError)
        } else {
            None
        },
    }
}

/// The state after a loan is opened: the book goes out of circulation, the
/// member's counter grows by one, and a fresh open loan is appended.
pub open spec fn open_loan_effect(
    v: LibView,
    bi: int,
    mi: int,
    member_id: u128,
    book_id: u128,
    due_ts: i64,
    today: Date,
    loan_id: u128,
) -> LibView {
    LibView {
        books: v.books.update(bi, Book { availability_status: false, ..v.books[bi] }),
        members: v.members.update(
            mi,
            Member { borrowed: (v.members[mi].borrowed + 1) as i32, ..v.members[mi] },
        ),
        loans: v.loans.push(
            Loan {
                loan_id,
                member_id,
                book_id,
                loan_date: today,
                due_date: date_of_timestamp(due_ts),
                return_date: None,
                status: LoanStatus::Open,
            },
        ),
    }
}

/// Opening a loan: either a refusal that leaves the store untouched, a
/// storage error when the fresh identity is already taken or the member's
/// counter cannot grow, or the three-record mutation as one unit.
pub open spec fn open_loan_spec(
    v: LibView,
    member_id: u128,
    book_id: u128,
    due_ts: i64,
    today: Date,
    loan_id: u128,
) -> (LibView, Result<u128, LibError>) {
    match open_refusal(v, member_id, book_id, due_ts) {
        Some(e) => (v, Err(e)),
        None => {
            let bi = book_at(v.books, book_id)->Some_0;
            let mi = member_at(v.members, member_id)->Some_0;
            if loan_at(v.loans, loan_id) is Some {
                (v, Err(LibError::StorageError))
            } else if v.members[mi].borrowed == i32::MAX {
                (v, Err(LibError::StorageError))
            } else {
                (
                    open_loan_effect(v, bi, mi, member_id, book_id, due_ts, today, loan_id),
                    Ok(loan_id),
                )
            }
        },
    }
}

/// Why a loan closure would be refused: the target status must be terminal,
/// the loan must exist and still be open, and its member must resolve.
pub open spec fn close_refusal(v: LibView, loan_id: u128, new_status: LoanStatus) -> Option<
    LibError,
> {
    if new_status == LoanStatus::Open {
        Some(LibError::PreconditionFailed)
    } else {
        match loan_at(v.loans, loan_id) {
            None => Some(LibError::NotFound),
            Some(li) => if v.loans[li].status != LoanStatus::Open {
                Some(LibError::PreconditionFailed)
            } else if member_at(v.members, v.loans[li].member_id) is None {
                Some(LibError::IntegrityViolation)
            } else {
                None
            },
        }
    }
}

/// The state after a loan is closed: the loan takes its terminal status and,
/// when returned, today's date; the book comes back into circulation; the
/// member's counter shrinks by one, never below zero.
pub open spec fn close_loan_effect(
    v: LibView,
    li: int,
    mi: int,
    new_status: LoanStatus,
    today: Date,
) -> LibView {
    let loan = v.loans[li];
    let books2 = match book_at(v.books, loan.book_id) {
        Some(bi) => v.books.update(bi, Book { availability_status: true, ..v.books[bi] }),
        None => v.books,
    };
    let m = v.members[mi];
    let m2 = Member {
        borrowed: if m.borrowed <= 0 {
            m.borrowed
        } else {
            (m.borrowed - 1) as i32
        },
        ..m
    };
    let loan2 = Loan {
        status: new_status,
        return_date: if new_status == LoanStatus::Returned {
            Some(today)
        } else {
            loan.return_date
        },
        ..loan
    };
    LibView { books: books2, members: v.members.update(mi, m2), loans: v.loans.update(li, loan2) }
}

/// Closing a loan: either a refusal that leaves the store untouched, or the
/// three-record mutation as one unit.
pub open spec fn close_loan_spec(
    v: LibView,
    loan_id: u128,
    new_status: LoanStatus,
    today: Date,
) -> (LibView, Result<bool, LibError>) {
    match close_refusal(v, loan_id, new_status) {
        Some(e) => (v, Err(e)),
        None => {
            let li = loan_at(v.loans, loan_id)->Some_0;
            let mi = member_at(v.members, v.loans[li].member_id)->Some_0;
            (close_loan_effect(v, li, mi, new_status, today), Ok(true))
        },
    }
}

// ---------------------------------------------------------------------------
// Single-entity store operations, as transitions on the model.
// ---------------------------------------------------------------------------

/// Inserting a record: refused when the identity is taken, appended
/// otherwise.
pub open spec fn insert_book_spec(v: LibView, b: Book) -> (LibView, Result<u128, LibError>) {
    if book_at(v.books, b.book_id) is Some {
        (v, Err(LibError::StorageError))
    } else {
        (LibView { books: v.books.push(b), ..v }, Ok(b.book_id))
    }
}

/// Inserting a member: refused when the identity is taken, appended
/// otherwise.
pub open spec fn insert_member_spec(v: LibView, m: Member) -> (LibView, Result<u128, LibError>) {
    if member_at(v.members, m.member_id) is Some {
        (v, Err(LibError::StorageError))
    } else {
        (LibView { members: v.members.push(m), ..v }, Ok(m.member_id))
    }
}

/// Updating a book's own fields. The availability flag belongs to the loan
/// lifecycle engine and is left as it stands.
pub open spec fn update_book_spec(v: LibView, id: u128, p: crate::books::NewBook) -> (
    LibView,
    bool,
) {
    match book_at(v.books, id) {
        None => (v, false),
        Some(bi) => (
            LibView {
                books: v.books.update(
                    bi,
                    Book {
                        book_id: v.books[bi].book_id,
                        title: p.title,
                        author: p.author,
                        publication_year: p.publication_year,
                        isbn: p.isbn,
                        availability_status: v.books[bi].availability_status,
                    },
                ),
                ..v
            },
            true,
        ),
    }
}

/// Updating a member's own fields. The borrowed counter belongs to the loan
/// lifecycle engine and is left as it stands.
pub open spec fn update_member_spec(v: LibView, id: u128, p: crate::members::NewMember) -> (
    LibView,
    bool,
) {
    match member_at(v.members, id) {
        None => (v, false),
        Some(mi) => (
            LibView {
                members: v.members.update(
                    mi,
                    Member {
                        member_id: v.members[mi].member_id,
                        name: p.name,
                        email: p.email,
                        borrowed: v.members[mi].borrowed,
                        privilege: p.privilege,
                    },
                ),
                ..v
            },
            true,
        ),
    }
}

/// Forcing a book's availability flag, the store-level write the engine
/// uses; on its own it answers only whether the book was found.
pub open spec fn update_book_status_spec(v: LibView, id: u128, flag: bool) -> (LibView, bool) {
    match book_at(v.books, id) {
        None => (v, false),
        Some(bi) => (
            LibView {
                books: v.books.update(bi, Book { availability_status: flag, ..v.books[bi] }),
                ..v
            },
            true,
        ),
    }
}

/// Forcing a loan's return date, the store-level write the engine uses; on
/// its own it answers only whether the loan was found.
pub open spec fn update_loan_return_date_spec(v: LibView, id: u128, d: Date) -> (LibView, bool) {
    match loan_at(v.loans, id) {
        None => (v, false),
        Some(li) => (
            LibView {
                loans: v.loans.update(li, Loan { return_date: Some(d), ..v.loans[li] }),
                ..v
            },
            true,
        ),
    }
}

/// Deleting a book: refused while any open loan still references it, so
/// that no open loan is ever orphaned.
pub open spec fn delete_book_spec(v: LibView, id: u128) -> (LibView, Result<(), LibError>) {
    match book_at(v.books, id) {
        None => (v, Err(LibError::NotFound)),
        Some(bi) => if open_loans_for_book(v.loans, id) != 0 {
            (v, Err(LibError::PreconditionFailed))
        } else {
            (LibView { books: v.books.remove(bi), ..v }, Ok(()))
        },
    }
}

/// Deleting a member. The store does not guard this: a loan left behind
/// surfaces later as an integrity violation when it is closed.
pub open spec fn delete_member_spec(v: LibView, id: u128) -> (LibView, Result<(), LibError>) {
    match member_at(v.members, id) {
        None => (v, Err(LibError::NotFound)),
        Some(mi) => (LibView { members: v.members.remove(mi), ..v }, Ok(())),
    }
}

} // verus!

use vstd::prelude::*;
use crate::books::Book;
use crate::dates::{Date, date_of_timestamp};
use crate::errors::LibError;
use crate::loans::{Loan, LoanStatus};
use crate::model::{
    LibView, wf, ids_unique, open_loans_anchored, availability_consistent, counts_consistent,
    return_dates_consistent, book_at, member_at, loan_at, lemma_book_at, lemma_member_at,
    lemma_loan_at, holds_book, held_by_member, open_loans_for_book, open_loans_for_member,
    lemma_book_count_push, lemma_member_count_push, lemma_book_count_update,
    lemma_member_count_update, lemma_book_count_zero,
    lemma_book_count_at_least_one, lemma_member_count_at_least_one, open_refusal, open_loan_spec,
    open_loan_effect, close_refusal, close_loan_spec, close_loan_effect, lemma_book_at_same_ids, has_book,
    lemma_member_at_same_ids, lemma_loan_at_same_ids, open_or_overdue_for_member,
    lemma_counts_agree_without_overdue, insert_book_spec, insert_member_spec, update_book_spec,
    update_member_spec, delete_book_spec, delete_member_spec,
};
use crate::books::NewBook;
use crate::members::{Member, NewMember};

verus! {

/// Opening a loan keeps the store well formed: the flags, counters and
/// statuses stay in step however the request fares.
pub proof fn lemma_open_loan_preserves_wf(
    v: LibView,
    member_id: u128,
    book_id: u128,
    due_ts: i64,
    today: Date,
    loan_id: u128,
)
    requires
        wf(v),
    ensures
        wf(open_loan_spec(v, member_id, book_id, due_ts, today, loan_id).0),
{
    let v2 = open_loan_spec(v, member_id, book_id, due_ts, today, loan_id).0;
    if open_refusal(v, member_id, book_id, due_ts) is None {
        lemma_book_at(v.books, book_id);
        lemma_member_at(v.members, member_id);
        let bi = book_at(v.books, book_id)->Some_0;
        let mi = member_at(v.members, member_id)->Some_0;
        if loan_at(v.loans, loan_id) is None && v.members[mi].borrowed != i32::MAX {
            lemma_loan_at(v.loans, loan_id);
            let nl = Loan {
                loan_id,
                member_id,
                book_id,
                loan_date: today,
                due_date: date_of_timestamp(due_ts),
                return_date: None,
                status: LoanStatus::Open,
            };
            assert(v2 == open_loan_effect(v, bi, mi, member_id, book_id, due_ts, today, loan_id));
            assert(v2.loans == v.loans.push(nl));
            assert(forall|i: int|
                0 <= i < v2.books.len() ==> (#[trigger] v2.books[i]).book_id
                    == v.books[i].book_id);
            assert(forall|i: int|
                0 <= i < v2.members.len() ==> (#[trigger] v2.members[i]).member_id
                    == v.members[i].member_id);
            assert(forall|i: int|
                0 <= i < v.loans.len() ==> v2.loans[i] == v.loans[i]);
            assert(v2.loans[v.loans.len() as int] == nl);
            assert forall|i: int, j: int| 0 <= i < j < v2.loans.len() implies v2.loans[i].loan_id
                != v2.loans[j].loan_id by {
                if j == v.loans.len() {
                    assert(v.loans[i].loan_id != loan_id);
                }
            }
            assert(ids_unique(v2));
            assert forall|i: int|
                0 <= i < v2.loans.len() && (#[trigger] v2.loans[i]).status == LoanStatus::Open
                implies has_book(v2, v2.loans[i].book_id) by {
                if i < v.loans.len() {
                    assert(has_book(v, v.loans[i].book_id));
                    let k = choose|k: int|
                        0 <= k < v.books.len() && (#[trigger] v.books[k]).book_id
                            == v.loans[i].book_id;
                    assert(0 <= k < v2.books.len() && v2.books[k].book_id == v2.loans[i].book_id);
                } else {
                    assert(0 <= bi < v2.books.len() && v2.books[bi].book_id
                        == v2.loans[i].book_id);
                }
            }
            assert(open_loans_anchored(v2));
            assert forall|i: int| 0 <= i < v2.books.len() implies {
                &&& open_loans_for_book(v2.loans, #[trigger] v2.books[i].book_id) <= 1
                &&& (v2.books[i].availability_status <==> open_loans_for_book(
                    v2.loans,
                    v2.books[i].book_id,
                ) == 0)
            } by {
                let id2 = v2.books[i].book_id;
                lemma_book_count_push(v.loans, nl, id2);
                assert(open_loans_for_book(v.loans, #[trigger] v.books[i].book_id) <= 1);
                if i == bi {
                    assert(v.books[bi].availability_status);
                    assert(open_loans_for_book(v.loans, id2) == 0);
                    assert(holds_book(nl, id2));
                    assert(open_loans_for_book(v2.loans, id2) == 1);
                    assert(!v2.books[i].availability_status);
                } else {
                    assert(id2 != book_id);
                    assert(!holds_book(nl, id2));
                    assert(open_loans_for_book(v2.loans, id2) == open_loans_for_book(
                        v.loans,
                        id2,
                    ));
                    assert(v2.books[i] == v.books[i]);
                }
            }
            assert(availability_consistent(v2));
            assert forall|i: int| 0 <= i < v2.members.len() implies v2.members[i].borrowed
                == open_loans_for_member(v2.loans, #[trigger] v2.members[i].member_id) by {
                let id2 = v2.members[i].member_id;
                lemma_member_count_push(v.loans, nl, id2);
                assert(v.members[i].borrowed == open_loans_for_member(
                    v.loans,
                    #[trigger] v.members[i].member_id,
                ));
                if i == mi {
                    assert(held_by_member(nl, id2));
                    assert(v2.members[i].borrowed == v.members[mi].borrowed + 1);
                } else {
                    assert(id2 != member_id);
                    assert(!held_by_member(nl, id2));
                    assert(v2.members[i] == v.members[i]);
                }
            }
            assert(counts_consistent(v2));
            assert forall|i: int| 0 <= i < v2.loans.len() implies ((
            #[trigger] v2.loans[i].return_date) is Some <==> v2.loans[i].status
                == LoanStatus::Returned) by {
                if i < v.loans.len() {
                    assert(v2.loans[i] == v.loans[i]);
                    assert(v.loans[i].return_date is Some <==> v.loans[i].status
                        == LoanStatus::Returned);
                }
            }
            assert(return_dates_consistent(v2));
        }
    }
}

/// Creating a book keeps the store well formed, provided the book enters
/// circulation available: a new book has no loan, so an unavailable one
/// would contradict the availability invariant from its first moment.
pub proof fn lemma_insert_book_preserves_wf(v: LibView, b: Book)
    requires
        wf(v),
        b.availability_status,
    ensures
        wf(insert_book_spec(v, b).0),
{
    let v2 = insert_book_spec(v, b).0;
    if book_at(v.books, b.book_id) is None {
        lemma_book_at(v.books, b.book_id);
        assert(v2.books == v.books.push(b));
        assert(forall|j: int| 0 <= j < v.books.len() ==> v2.books[j] == v.books[j]);
        assert(v2.books[v.books.len() as int] == b);
        assert(ids_unique(v2));
        assert forall|i: int|
            0 <= i < v2.loans.len() && (#[trigger] v2.loans[i]).status == LoanStatus::Open
            implies has_book(v2, v2.loans[i].book_id) by {
            assert(has_book(v, v.loans[i].book_id));
            let k = choose|k: int|
                0 <= k < v.books.len() && (#[trigger] v.books[k]).book_id == v.loans[i].book_id;
            assert(0 <= k < v2.books.len() && v2.books[k].book_id == v2.loans[i].book_id);
        }
        assert(open_loans_anchored(v2));
        assert(open_loans_for_book(v.loans, b.book_id) == 0) by {
            lemma_book_count_zero(v.loans, b.book_id);
            assert forall|j: int| 0 <= j < v.loans.len() implies !holds_book(
                #[trigger] v.loans[j],
                b.book_id,
            ) by {
                if v.loans[j].status == LoanStatus::Open {
                    assert(has_book(v, v.loans[j].book_id));
                    let k = choose|k: int|
                        0 <= k < v.books.len() && (#[trigger] v.books[k]).book_id
                            == v.loans[j].book_id;
                    assert(v.books[k].book_id != b.book_id);
                }
            }
        }
        assert forall|i: int| 0 <= i < v2.books.len() implies {
            &&& open_loans_for_book(v2.loans, #[trigger] v2.books[i].book_id) <= 1
            &&& (v2.books[i].availability_status <==> open_loans_for_book(
                v2.loans,
                v2.books[i].book_id,
            ) == 0)
        } by {
            if i < v.books.len() {
                assert(open_loans_for_book(v.loans, #[trigger] v.books[i].book_id) <= 1);
                assert(v2.books[i] == v.books[i]);
            }
        }
        assert(availability_consistent(v2));
    }
}

/// Creating a member keeps the store well formed, provided the member
/// starts with a zero counter and no loan is already charged to the new
/// identity.
pub proof fn lemma_insert_member_preserves_wf(v: LibView, m: Member)
    requires
        wf(v),
        m.borrowed == 0,
        open_loans_for_member(v.loans, m.member_id) == 0,
    ensures
        wf(insert_member_spec(v, m).0),
{
    let v2 = insert_member_spec(v, m).0;
    if member_at(v.members, m.member_id) is None {
        lemma_member_at(v.members, m.member_id);
        assert(v2.members == v.members.push(m));
        assert(forall|j: int| 0 <= j < v.members.len() ==> v2.members[j] == v.members[j]);
        assert(v2.members[v.members.len() as int] == m);
        assert(ids_unique(v2));
        assert forall|i: int| 0 <= i < v2.members.len() implies v2.members[i].borrowed
            == open_loans_for_member(v2.loans, #[trigger] v2.members[i].member_id) by {
            if i < v.members.len() {
                assert(v.members[i].borrowed == open_loans_for_member(
                    v.loans,
                    #[trigger] v.members[i].member_id,
                ));
            }
        }
        assert(counts_consistent(v2));
        assert forall|i: int|
            0 <= i < v2.loans.len() && (#[trigger] v2.loans[i]).status == LoanStatus::Open
            implies has_book(v2, v2.loans[i].book_id) by {
            assert(has_book(v, v.loans[i].book_id));
            let k = choose|k: int|
                0 <= k < v.books.len() && (#[trigger] v.books[k]).book_id == v.loans[i].book_id;
            assert(0 <= k < v2.books.len() && v2.books[k].book_id == v2.loans[i].book_id);
        }
        assert(open_loans_anchored(v2));
    }
}

/// Updating a book's own fields keeps the store well formed: the identity
/// and the availability flag are untouched, so every invariant carries
/// over.
pub proof fn lemma_update_book_preserves_wf(v: LibView, id: u128, p: NewBook)
    requires
        wf(v),
    ensures
        wf(update_book_spec(v, id, p).0),
{
    let v2 = update_book_spec(v, id, p).0;
    if book_at(v.books, id) is Some {
        lemma_book_at(v.books, id);
        let bi = book_at(v.books, id)->Some_0;
        assert(forall|j: int|
            0 <= j < v2.books.len() ==> (#[trigger] v2.books[j]).book_id == v.books[j].book_id
                && v2.books[j].availability_status == v.books[j].availability_status);
        assert(ids_unique(v2));
        assert forall|i: int|
            0 <= i < v2.loans.len() && (#[trigger] v2.loans[i]).status == LoanStatus::Open
            implies has_book(v2, v2.loans[i].book_id) by {
            assert(has_book(v, v.loans[i].book_id));
            let k = choose|k: int|
                0 <= k < v.books.len() && (#[trigger] v.books[k]).book_id == v.loans[i].book_id;
            assert(0 <= k < v2.books.len() && v2.books[k].book_id == v2.loans[i].book_id);
        }
        assert(open_loans_anchored(v2));
        assert forall|i: int| 0 <= i < v2.books.len() implies {
            &&& open_loans_for_book(v2.loans, #[trigger] v2.books[i].book_id) <= 1
            &&& (v2.books[i].availability_status <==> open_loans_for_book(
                v2.loans,
                v2.books[i].book_id,
            ) == 0)
        } by {
            assert(open_loans_for_book(v.loans, #[trigger] v.books[i].book_id) <= 1);
            assert(v2.books[i].book_id == v.books[i].book_id);
        }
        assert(availability_consistent(v2));
    }
}

/// Updating a member's own fields keeps the store well formed: the
/// identity and the borrowed counter are untouched, so every invariant
/// carries over.
pub proof fn lemma_update_member_preserves_wf(v: LibView, id: u128, p: NewMember)
    requires
        wf(v),
    ensures
        wf(update_member_spec(v, id, p).0),
{
    let v2 = update_member_spec(v, id, p).0;
    if member_at(v.members, id) is Some {
        lemma_member_at(v.members, id);
        assert(forall|j: int|
            0 <= j < v2.members.len() ==> (#[trigger] v2.members[j]).member_id
                == v.members[j].member_id && v2.members[j].borrowed == v.members[j].borrowed);
        assert(ids_unique(v2));
        assert forall|i: int| 0 <= i < v2.members.len() implies v2.members[i].borrowed
            == open_loans_for_member(v2.loans, #[trigger] v2.members[i].member_id) by {
            assert(v.members[i].borrowed == open_loans_for_member(
                v.loans,
                #[trigger] v.members[i].member_id,
            ));
        }
        assert(counts_consistent(v2));
        assert forall|i: int|
            0 <= i < v2.loans.len() && (#[trigger] v2.loans[i]).status == LoanStatus::Open
            implies has_book(v2, v2.loans[i].book_id) by {
            assert(has_book(v, v.loans[i].book_id));
            let k = choose|k: int|
                0 <= k < v.books.len() && (#[trigger] v.books[k]).book_id == v.loans[i].book_id;
            assert(0 <= k < v2.books.len() && v2.books[k].book_id == v2.loans[i].book_id);
        }
        assert(open_loans_anchored(v2));
    }
}

/// Deleting a book keeps the store well formed: the store refuses while an
/// open loan references the book, so no open loan is orphaned and the other
/// books' flags keep their meaning.
pub proof fn lemma_delete_book_preserves_wf(v: LibView, id: u128)
    requires
        wf(v),
    ensures
        wf(delete_book_spec(v, id).0),
{
    let v2 = delete_book_spec(v, id).0;
    if book_at(v.books, id) is Some && open_loans_for_book(v.loans, id) == 0 {
        lemma_book_at(v.books, id);
        let bi = book_at(v.books, id)->Some_0;
        assert(v2.books == v.books.remove(bi));
        assert(forall|j: int|
            0 <= j < v2.books.len() ==> v2.books[j] == (if j < bi {
                v.books[j]
            } else {
                v.books[j + 1]
            }));
        assert forall|i: int, j: int| 0 <= i < j < v2.books.len() implies v2.books[i].book_id
            != v2.books[j].book_id by {
            let i0 = if i < bi { i } else { i + 1 };
            let j0 = if j < bi { j } else { j + 1 };
            assert(v.books[i0].book_id != v.books[j0].book_id);
        }
        assert(ids_unique(v2));
        lemma_book_count_zero(v.loans, id);
        assert forall|i: int|
            0 <= i < v2.loans.len() && (#[trigger] v2.loans[i]).status == LoanStatus::Open
            implies has_book(v2, v2.loans[i].book_id) by {
            assert(has_book(v, v.loans[i].book_id));
            let k = choose|k: int|
                0 <= k < v.books.len() && (#[trigger] v.books[k]).book_id == v.loans[i].book_id;
            assert(!holds_book(v.loans[i], id));
            assert(v.books[k].book_id != id);
            assert(k != bi);
            let k2 = if k < bi {
                k
            } else {
                k - 1
            };
            assert(0 <= k2 < v2.books.len() && v2.books[k2].book_id == v2.loans[i].book_id);
        }
        assert(open_loans_anchored(v2));
        assert forall|i: int| 0 <= i < v2.books.len() implies {
            &&& open_loans_for_book(v2.loans, #[trigger] v2.books[i].book_id) <= 1
            &&& (v2.books[i].availability_status <==> open_loans_for_book(
                v2.loans,
                v2.books[i].book_id,
            ) == 0)
        } by {
            let i0 = if i < bi { i } else { i + 1 };
            assert(v2.books[i] == v.books[i0]);
            assert(open_loans_for_book(v.loans, #[trigger] v.books[i0].book_id) <= 1);
        }
        assert(availability_consistent(v2));
    }
}

/// Deleting a member keeps the store well formed: the counters of the
/// remaining members and every book's flag are untouched.
pub proof fn lemma_delete_member_preserves_wf(v: LibView, id: u128)
    requires
        wf(v),
    ensures
        wf(delete_member_spec(v, id).0),
{
    let v2 = delete_member_spec(v, id).0;
    if member_at(v.members, id) is Some {
        lemma_member_at(v.members, id);
        let mi = member_at(v.members, id)->Some_0;
        assert(v2.members == v.members.remove(mi));
        assert(forall|j: int|
            0 <= j < v2.members.len() ==> v2.members[j] == (if j < mi {
                v.members[j]
            } else {
                v.members[j + 1]
            }));
        assert forall|i: int, j: int| 0 <= i < j < v2.members.len() implies v2.members[i].member_id
            != v2.members[j].member_id by {
            let i0 = if i < mi { i } else { i + 1 };
            let j0 = if j < mi { j } else { j + 1 };
            assert(v.members[i0].member_id != v.members[j0].member_id);
        }
        assert(ids_unique(v2));
        assert forall|i: int| 0 <= i < v2.members.len() implies v2.members[i].borrowed
            == open_loans_for_member(v2.loans, #[trigger] v2.members[i].member_id) by {
            let i0 = if i < mi { i } else { i + 1 };
            assert(v2.members[i] == v.members[i0]);
            assert(v.members[i0].borrowed == open_loans_for_member(
                v.loans,
                #[trigger] v.members[i0].member_id,
            ));
        }
        assert(counts_consistent(v2));
        assert forall|i: int|
            0 <= i < v2.loans.len() && (#[trigger] v2.loans[i]).status == LoanStatus::Open
            implies has_book(v2, v2.loans[i].book_id) by {
            assert(has_book(v, v.loans[i].book_id));
            let k = choose|k: int|
                0 <= k < v.books.len() && (#[trigger] v.books[k]).book_id == v.loans[i].book_id;
            assert(0 <= k < v2.books.len() && v2.books[k].book_id == v2.loans[i].book_id);
        }
        assert(open_loans_anchored(v2));
    }
}

/// In a well-formed store a book is available exactly while no open loan
/// references it.
pub proof fn lemma_availability_iff_no_open_loan(v: LibView, i: int)
    requires
        wf(v),
        0 <= i < v.books.len(),
    ensures
        v.books[i].availability_status <==> (forall|j: int|
            0 <= j < v.loans.len() ==> !holds_book(#[trigger] v.loans[j], v.books[i].book_id)),
{
    lemma_book_count_zero(v.loans, v.books[i].book_id);
}

/// In a well-formed store a member's borrowed counter equals the number of
/// loans open for the member and is never negative; while the member has no
/// overdue loan it equally counts the loans open or overdue.
pub proof fn lemma_borrowed_counter(v: LibView, i: int)
    requires
        wf(v),
        0 <= i < v.members.len(),
    ensures
        v.members[i].borrowed == open_loans_for_member(v.loans, v.members[i].member_id),
        v.members[i].borrowed >= 0,
        (forall|j: int|
            0 <= j < v.loans.len() ==> !((#[trigger] v.loans[j].status) == LoanStatus::Overdue
                && v.loans[j].member_id == v.members[i].member_id)) ==> v.members[i].borrowed
            == open_or_overdue_for_member(v.loans, v.members[i].member_id),
{
    if forall|j: int|
        0 <= j < v.loans.len() ==> !((#[trigger] v.loans[j].status) == LoanStatus::Overdue
            && v.loans[j].member_id == v.members[i].member_id) {
        lemma_counts_agree_without_overdue(v.loans, v.members[i].member_id);
    }
}

/// Opening a loan on an unavailable book fails with a precondition error
/// and leaves the store untouched: no loan appears and no counter moves.
pub proof fn lemma_open_unavailable_fails(
    v: LibView,
    member_id: u128,
    book_id: u128,
    due_ts: i64,
    today: Date,
    loan_id: u128,
)
    requires
        book_at(v.books, book_id) matches Some(bi) && !v.books[bi].availability_status,
    ensures
        open_loan_spec(v, member_id, book_id, due_ts, today, loan_id) == (
            v,
            Err::<u128, LibError>(LibError::PreconditionFailed),
        ),
{
}

/// Closing a loan identity that does not exist reports it as not found and
/// leaves every record unchanged.
pub proof fn lemma_close_missing_loan(
    v: LibView,
    loan_id: u128,
    new_status: LoanStatus,
    today: Date,
)
    requires
        new_status != LoanStatus::Open,
        loan_at(v.loans, loan_id) is None,
    ensures
        close_loan_spec(v, loan_id, new_status, today) == (
            v,
            Err::<bool, LibError>(LibError::NotFound),
        ),
{
}

/// Loan requests racing on the same single-copy book are serialized by the
/// store: once one has succeeded, any further request for that book fails
/// with a precondition error and changes nothing, whoever makes it.
pub proof fn lemma_second_open_fails(
    v: LibView,
    m1: u128,
    book_id: u128,
    ts1: i64,
    d1: Date,
    l1: u128,
    m2: u128,
    ts2: i64,
    d2: Date,
    l2: u128,
)
    requires
        wf(v),
        open_loan_spec(v, m1, book_id, ts1, d1, l1).1 is Ok,
    ensures
        ({
            let v1 = open_loan_spec(v, m1, book_id, ts1, d1, l1).0;
            open_loan_spec(v1, m2, book_id, ts2, d2, l2) == (
                v1,
                Err::<u128, LibError>(LibError::PreconditionFailed),
            )
        }),
{
    let v1 = open_loan_spec(v, m1, book_id, ts1, d1, l1).0;
    lemma_book_at(v.books, book_id);
    let bi = book_at(v.books, book_id)->Some_0;
    assert(forall|j: int|
        0 <= j < v1.books.len() ==> (#[trigger] v1.books[j]).book_id == v.books[j].book_id);
    lemma_book_at_same_ids(v.books, v1.books, book_id);
    assert(!v1.books[bi].availability_status);
}

/// A loan can be closed only once: after a successful close, closing the
/// same loan again is rejected outright with a precondition error and
/// changes nothing, so the member's counter, which stays in step with the
/// open loans, is never driven negative.
pub proof fn lemma_second_close_rejected(
    v: LibView,
    loan_id: u128,
    st1: LoanStatus,
    d1: Date,
    st2: LoanStatus,
    d2: Date,
)
    requires
        wf(v),
        close_loan_spec(v, loan_id, st1, d1).1 is Ok,
    ensures
        ({
            let v1 = close_loan_spec(v, loan_id, st1, d1).0;
            &&& close_loan_spec(v1, loan_id, st2, d2) == (
                v1,
                Err::<bool, LibError>(LibError::PreconditionFailed),
            )
            &&& wf(v1)
        }),
{
    let v1 = close_loan_spec(v, loan_id, st1, d1).0;
    lemma_close_loan_preserves_wf(v, loan_id, st1, d1);
    lemma_loan_at(v.loans, loan_id);
    let li = loan_at(v.loans, loan_id)->Some_0;
    assert(forall|j: int|
        0 <= j < v1.loans.len() ==> (#[trigger] v1.loans[j]).loan_id == v.loans[j].loan_id);
    lemma_loan_at_same_ids(v.loans, v1.loans, loan_id);
    assert(v1.loans[li].status == st1);
    assert(st1 != LoanStatus::Open);
}

/// Opening a loan and closing it as returned at once undoes the open: the
/// close succeeds, the loan ends returned and dated, the book is available
/// again, and the member's counter is back at its value before the open.
pub proof fn lemma_open_then_close_restores(
    v: LibView,
    member_id: u128,
    book_id: u128,
    due_ts: i64,
    d1: Date,
    loan_id: u128,
    d2: Date,
)
    requires
        wf(v),
        open_loan_spec(v, member_id, book_id, due_ts, d1, loan_id).1 is Ok,
    ensures
        ({
            let v1 = open_loan_spec(v, member_id, book_id, due_ts, d1, loan_id).0;
            let (v2, r2) = close_loan_spec(v1, loan_id, LoanStatus::Returned, d2);
            &&& r2 == Ok::<bool, LibError>(true)
            &&& book_at(v2.books, book_id) == book_at(v.books, book_id)
            &&& v2.books[book_at(v.books, book_id)->Some_0].availability_status
            &&& member_at(v2.members, member_id) == member_at(v.members, member_id)
            &&& v2.members[member_at(v.members, member_id)->Some_0].borrowed == v.members[member_at(
                v.members,
                member_id,
            )->Some_0].borrowed
            &&& loan_at(v2.loans, loan_id) matches Some(li) && v2.loans[li].status
                == LoanStatus::Returned && v2.loans[li].return_date == Some(d2)
        }),
{
    let v1 = open_loan_spec(v, member_id, book_id, due_ts, d1, loan_id).0;
    lemma_book_at(v.books, book_id);
    lemma_member_at(v.members, member_id);
    lemma_loan_at(v.loans, loan_id);
    let bi = book_at(v.books, book_id)->Some_0;
    let mi = member_at(v.members, member_id)->Some_0;
    let n = v.loans.len() as int;
    assert(v1.loans == v.loans.push(
        Loan {
            loan_id,
            member_id,
            book_id,
            loan_date: d1,
            due_date: date_of_timestamp(due_ts),
            return_date: None,
            status: LoanStatus::Open,
        },
    ));
    assert(v1.loans[n].loan_id == loan_id);
    lemma_loan_at(v1.loans, loan_id);
    assert(forall|j: int| 0 <= j < n ==> v1.loans[j] == v.loans[j]);
    assert(loan_at(v1.loans, loan_id) == Some(n));
    assert(forall|j: int|
        0 <= j < v1.members.len() ==> (#[trigger] v1.members[j]).member_id
            == v.members[j].member_id);
    lemma_member_at_same_ids(v.members, v1.members, member_id);
    assert(forall|j: int|
        0 <= j < v1.books.len() ==> (#[trigger] v1.books[j]).book_id == v.books[j].book_id);
    lemma_book_at_same_ids(v.books, v1.books, book_id);
    assert(close_refusal(v1, loan_id, LoanStatus::Returned) is None);
    let v2 = close_loan_spec(v1, loan_id, LoanStatus::Returned, d2).0;
    assert(v.members[mi].borrowed >= 0) by {
        assert(v.members[mi].borrowed == open_loans_for_member(
            v.loans,
            #[trigger] v.members[mi].member_id,
        ));
    }
    assert(v1.members[mi].borrowed == v.members[mi].borrowed + 1);
    assert(v2.members[mi].borrowed == v.members[mi].borrowed);
    assert(v2.books[bi].availability_status);
    assert(forall|j: int|
        0 <= j < v2.books.len() ==> (#[trigger] v2.books[j]).book_id == v1.books[j].book_id);
    lemma_book_at_same_ids(v.books, v2.books, book_id);
    assert(forall|j: int|
        0 <= j < v2.members.len() ==> (#[trigger] v2.members[j]).member_id
            == v1.members[j].member_id);
    lemma_member_at_same_ids(v.members, v2.members, member_id);
    assert(forall|j: int|
        0 <= j < v2.loans.len() ==> (#[trigger] v2.loans[j]).loan_id == v1.loans[j].loan_id);
    lemma_loan_at_same_ids(v1.loans, v2.loans, loan_id);
    assert(v2.loans[n].status == LoanStatus::Returned);
    assert(v2.loans[n].return_date == Some(d2));
}

/// Closing a loan keeps the store well formed: the flags, counters and
/// statuses stay in step however the request fares.
pub proof fn lemma_close_loan_preserves_wf(
    v: LibView,
    loan_id: u128,
    new_status: LoanStatus,
    today: Date,
)
    requires
        wf(v),
    ensures
        wf(close_loan_spec(v, loan_id, new_status, today).0),
{
    let v2 = close_loan_spec(v, loan_id, new_status, today).0;
    if close_refusal(v, loan_id, new_status) is None {
        lemma_loan_at(v.loans, loan_id);
        let li = loan_at(v.loans, loan_id)->Some_0;
        let loan = v.loans[li];
        lemma_member_at(v.members, loan.member_id);
        let mi = member_at(v.members, loan.member_id)->Some_0;
        assert(loan.status == LoanStatus::Open);
        assert(has_book(v, v.loans[li].book_id));
        let kw = choose|k: int|
            0 <= k < v.books.len() && (#[trigger] v.books[k]).book_id == v.loans[li].book_id;
        assert(v.books[kw].book_id == loan.book_id);
        lemma_book_at(v.books, loan.book_id);
        let bi = book_at(v.books, loan.book_id)->Some_0;
        assert(book_at(v.books, loan.book_id) is Some);
        assert(v2 == close_loan_effect(v, li, mi, new_status, today));
        let loan2 = Loan {
            status: new_status,
            return_date: if new_status == LoanStatus::Returned {
                Some(today)
            } else {
                loan.return_date
            },
            ..loan
        };
        assert(v2.loans == v.loans.update(li, loan2));
        assert(forall|i: int|
            0 <= i < v2.books.len() ==> (#[trigger] v2.books[i]).book_id == v.books[i].book_id);
        assert(forall|i: int|
            0 <= i < v2.members.len() ==> (#[trigger] v2.members[i]).member_id
                == v.members[i].member_id);
        assert(forall|i: int|
            0 <= i < v2.loans.len() ==> (#[trigger] v2.loans[i]).loan_id == v.loans[i].loan_id);
        assert(ids_unique(v2));
        assert forall|i: int|
            0 <= i < v2.loans.len() && (#[trigger] v2.loans[i]).status == LoanStatus::Open
            implies has_book(v2, v2.loans[i].book_id) by {
            if i == li {
                assert(v2.loans[i] == loan2);
                assert(0 <= bi < v2.books.len() && v2.books[bi].book_id == v2.loans[i].book_id);
            } else {
                assert(v2.loans[i] == v.loans[i]);
                assert(has_book(v, v.loans[i].book_id));
                let k = choose|k: int|
                    0 <= k < v.books.len() && (#[trigger] v.books[k]).book_id
                        == v.loans[i].book_id;
                assert(0 <= k < v2.books.len() && v2.books[k].book_id == v2.loans[i].book_id);
            }
        }
        assert(open_loans_anchored(v2));
        assert forall|i: int| 0 <= i < v2.books.len() implies {
            &&& open_loans_for_book(v2.loans, #[trigger] v2.books[i].book_id) <= 1
            &&& (v2.books[i].availability_status <==> open_loans_for_book(
                v2.loans,
                v2.books[i].book_id,
            ) == 0)
        } by {
            let id2 = v2.books[i].book_id;
            lemma_book_count_update(v.loans, li, loan2, id2);
            assert(open_loans_for_book(v.loans, #[trigger] v.books[i].book_id) <= 1);
            assert(!holds_book(loan2, id2));
            if i == bi {
                assert(holds_book(loan, id2));
                lemma_book_count_at_least_one(v.loans, li, id2);
                assert(open_loans_for_book(v.loans, id2) == 1);
                assert(open_loans_for_book(v2.loans, id2) == 0);
                assert(v2.books[i].availability_status);
            } else {
                assert(id2 != loan.book_id);
                assert(!holds_book(loan, id2));
                assert(open_loans_for_book(v2.loans, id2) == open_loans_for_book(v.loans, id2));
                assert(v2.books[i] == v.books[i]);
            }
        }
        assert(availability_consistent(v2));
        assert forall|i: int| 0 <= i < v2.members.len() implies v2.members[i].borrowed
            == open_loans_for_member(v2.loans, #[trigger] v2.members[i].member_id) by {
            let id2 = v2.members[i].member_id;
            lemma_member_count_update(v.loans, li, loan2, id2);
            assert(v.members[i].borrowed == open_loans_for_member(
                v.loans,
                #[trigger] v.members[i].member_id,
            ));
            assert(!held_by_member(loan2, id2));
            if i == mi {
                assert(held_by_member(loan, id2));
                lemma_member_count_at_least_one(v.loans, li, id2);
                assert(v.members[mi].borrowed >= 1);
                assert(v2.members[i].borrowed == v.members[mi].borrowed - 1);
                assert(open_loans_for_member(v2.loans, id2) == open_loans_for_member(
                    v.loans,
                    id2,
                ) - 1);
            } else {
                assert(id2 != loan.member_id);
                assert(!held_by_member(loan, id2));
                assert(open_loans_for_member(v2.loans, id2) == open_loans_for_member(
                    v.loans,
                    id2,
                ));
                assert(v2.members[i] == v.members[i]);
            }
        }
        assert(counts_consistent(v2));
        assert forall|i: int| 0 <= i < v2.loans.len() implies ((
        #[trigger] v2.loans[i].return_date) is Some <==> v2.loans[i].status == LoanStatus::Returned)
            by {
            if i != li {
                assert(v2.loans[i] == v.loans[i]);
                assert(v.loans[i].return_date is Some <==> v.loans[i].status
                    == LoanStatus::Returned);
            } else {
                assert(loan.return_date is None);
            }
        }
        assert(return_dates_consistent(v2));
    }
}

} // verus!

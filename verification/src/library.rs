use vstd::prelude::*;
use crate::books::{Book, NewBook};
use crate::dates::{Date, timestamp_to_date, today, valid_date};
use crate::errors::LibError;
use crate::ids::fresh_id;
use crate::loans::{Loan, LoanStatus, NewLoan};
use crate::members::{Member, NewMember};
use crate::model::{
    LibView, book_at, loan_at, member_at, lemma_book_at, lemma_loan_at, lemma_member_at,
    lemma_remove_insert, open_loan_spec, open_loan_effect, close_loan_spec, close_loan_effect,
    insert_book_spec, insert_member_spec, update_book_spec, update_member_spec,
    update_book_status_spec, update_loan_return_date_spec, delete_book_spec, delete_member_spec,
    open_loans_for_book, lemma_book_count_zero, open_refusal, close_refusal,
};

verus! {

/// The in-memory store: the three record tables, which the loan lifecycle
/// engine mutates as one unit per operation.
pub struct Library {
    books: Vec<Book>,
    members: Vec<Member>,
    loans: Vec<Loan>,
}

impl View for Library {
    type V = LibView;

    closed spec fn view(&self) -> LibView {
        LibView { books: self.books@, members: self.members@, loans: self.loans@ }
    }
}

impl Library {
    /// An empty store, trivially well formed.
    pub fn new() -> (r: Library)
        ensures
            r@.books.len() == 0,
            r@.members.len() == 0,
            r@.loans.len() == 0,
            crate::model::wf(r@),
    {
        Library { books: Vec::new(), members: Vec::new(), loans: Vec::new() }
    }

    /// The position of the book with this identity, if it exists.
    fn find_book(&self, id: u128) -> (r: Option<usize>)
        ensures
            match r {
                Some(i) => i < self@.books.len() && book_at(self@.books, id) == Some(i as int),
                None => book_at(self@.books, id) is None,
            },
    {
        proof {
            lemma_book_at(self@.books, id);
        }
        let mut i: usize = 0;
        while i < self.books.len()
            invariant
                i <= self.books.len(),
                forall|j: int| 0 <= j < i ==> self.books@[j].book_id != id,
            decreases self.books.len() - i,
        {
            if self.books[i].book_id == id {
                return Some(i);
            }
            i += 1;
        }
        None
    }

    /// The position of the member with this identity, if it exists.
    fn find_member(&self, id: u128) -> (r: Option<usize>)
        ensures
            match r {
                Some(i) => i < self@.members.len() && member_at(self@.members, id) == Some(i as int),
                None => member_at(self@.members, id) is None,
            },
    {
        proof {
            lemma_member_at(self@.members, id);
        }
        let mut i: usize = 0;
        while i < self.members.len()
            invariant
                i <= self.members.len(),
                forall|j: int| 0 <= j < i ==> self.members@[j].member_id != id,
            decreases self.members.len() - i,
        {
            if self.members[i].member_id == id {
                return Some(i);
            }
            i += 1;
        }
        None
    }

    /// The position of the loan with this identity, if it exists.
    fn find_loan(&self, id: u128) -> (r: Option<usize>)
        ensures
            match r {
                Some(i) => i < self@.loans.len() && loan_at(self@.loans, id) == Some(i as int),
                None => loan_at(self@.loans, id) is None,
            },
    {
        proof {
            lemma_loan_at(self@.loans, id);
        }
        let mut i: usize = 0;
        while i < self.loans.len()
            invariant
                i <= self.loans.len(),
                forall|j: int| 0 <= j < i ==> self.loans@[j].loan_id != id,
            decreases self.loans.len() - i,
        {
            if self.loans[i].loan_id == id {
                return Some(i);
            }
            i += 1;
        }
        None
    }

    /// Replace the book at a known position, keeping every field but the
    /// availability flag, which is set to `flag`.
    fn set_book_availability(&mut self, i: usize, flag: bool)
        requires
            i < old(self)@.books.len(),
        ensures
            final(self)@.books =~= old(self)@.books.update(
                i as int,
                Book { availability_status: flag, ..old(self)@.books[i as int] },
            ),
            final(self)@.members == old(self)@.members,
            final(self)@.loans == old(self)@.loans,
    {
        let b = self.books.remove(i);
        let Book { book_id, title, author, publication_year, isbn, availability_status: _ } = b;
        self.books.insert(
            i,
            Book { book_id, title, author, publication_year, isbn, availability_status: flag },
        );
        proof {
            lemma_remove_insert(
                old(self)@.books,
                i as int,
                Book { availability_status: flag, ..old(self)@.books[i as int] },
            );
        }
    }

    /// Replace the member at a known position, keeping every field but the
    /// borrowed counter, which is set to `borrowed`.
    fn set_member_borrowed(&mut self, i: usize, borrowed: i32)
        requires
            i < old(self)@.members.len(),
        ensures
            final(self)@.members =~= old(self)@.members.update(
                i as int,
                Member { borrowed, ..old(self)@.members[i as int] },
            ),
            final(self)@.books == old(self)@.books,
            final(self)@.loans == old(self)@.loans,
    {
        let m = self.members.remove(i);
        let Member { member_id, name, email, borrowed: _, privilege } = m;
        self.members.insert(i, Member { member_id, name, email, borrowed, privilege });
        proof {
            lemma_remove_insert(
                old(self)@.members,
                i as int,
                Member { borrowed, ..old(self)@.members[i as int] },
            );
        }
    }

    /// Create a book under a freshly drawn identity. The store reports the
    /// vanishingly unlikely identity collision as a storage error instead of
    /// overwriting anything; on a store where no identity is taken, success
    /// is owed.
    pub fn add_book(
        &mut self,
        title: &str,
        author: &str,
        publication_year: i32,
        isbn: &str,
        available: bool,
    ) -> (r: Result<u128, LibError>)
        ensures
            match r {
                Ok(id) => ({
                    let b = final(self)@.books.last();
                    &&& book_at(old(self)@.books, id) is None
                    &&& final(self)@.books == old(self)@.books.push(b)
                    &&& b.book_id == id
                    &&& b.title@ == title@
                    &&& b.author@ == author@
                    &&& b.publication_year == publication_year
                    &&& b.isbn matches Some(s) && s@ == isbn@
                    &&& b.availability_status == available
                    &&& final(self)@.members == old(self)@.members
                    &&& final(self)@.loans == old(self)@.loans
                }),
                Err(e) => e == LibError::StorageError && final(self)@ == old(self)@ && (exists|
                    id: u128,
                | book_at(old(self)@.books, id) is Some),
            },
    {
        let id = fresh_id();
        let b = Book {
            book_id: id,
            title: title.to_owned(),
            author: author.to_owned(),
            publication_year,
            isbn: Some(isbn.to_owned()),
            availability_status: available,
        };
        let res = self.insert_book(b);
        proof {
            if res is Err {
                assert(book_at(old(self)@.books, id) is Some);
            }
        }
        res
    }

    /// Create a member under a freshly drawn identity, with nothing
    /// borrowed yet. The identity collision is reported as a storage error;
    /// on a store where no identity is taken, success is owed.
    pub fn add_member(&mut self, name: &str, email: &str, privilege: bool) -> (r: Result<
        u128,
        LibError,
    >)
        ensures
            match r {
                Ok(id) => ({
                    let m = final(self)@.members.last();
                    &&& member_at(old(self)@.members, id) is None
                    &&& final(self)@.members == old(self)@.members.push(m)
                    &&& m.member_id == id
                    &&& m.name@ == name@
                    &&& m.email@ == email@
                    &&& m.borrowed == 0
                    &&& m.privilege == privilege
                    &&& final(self)@.books == old(self)@.books
                    &&& final(self)@.loans == old(self)@.loans
                }),
                Err(e) => e == LibError::StorageError && final(self)@ == old(self)@ && (exists|
                    id: u128,
                | member_at(old(self)@.members, id) is Some),
            },
    {
        let id = fresh_id();
        let m = Member {
            member_id: id,
            name: name.to_owned(),
            email: email.to_owned(),
            borrowed: 0,
            privilege,
        };
        let res = self.insert_member(m);
        proof {
            if res is Err {
                assert(member_at(old(self)@.members, id) is Some);
            }
        }
        res
    }

    /// Open a loan dated today under a freshly drawn loan identity. The
    /// outcome is exactly the engine's for that date and identity: every
    /// refusal is as the engine refuses, and a storage error is possible
    /// only where the drawn identity is already a loan's or the member's
    /// counter cannot grow — on a store with no loan, success is owed.
    pub fn create_loan(&mut self, payload: &NewLoan) -> (r: Result<u128, LibError>)
        ensures
            open_refusal(old(self)@, payload.member_id, payload.book_id, payload.due_date)
                matches Some(e) ==> r == Err::<u128, LibError>(e) && final(self)@ == old(self)@,
            open_refusal(old(self)@, payload.member_id, payload.book_id, payload.due_date)
                is None ==> exists|d: Date, id: u128|
                valid_date(d) && (final(self)@, r) == #[trigger] open_loan_spec(
                    old(self)@,
                    payload.member_id,
                    payload.book_id,
                    payload.due_date,
                    d,
                    id,
                ),
    {
        let d = today();
        let id = fresh_id();
        let res = self.open_loan(payload.member_id, payload.book_id, payload.due_date, d, id);
        proof {
            assert(valid_date(d) && (self@, res) == open_loan_spec(
                old(self)@,
                payload.member_id,
                payload.book_id,
                payload.due_date,
                d,
                id,
            ));
        }
        res
    }

    /// Close a loan as of today. Every refusal is exactly the engine's; a
    /// found open loan is always closed.
    pub fn return_book(&mut self, loan_id: u128, status: LoanStatus) -> (r: Result<
        bool,
        LibError,
    >)
        ensures
            close_refusal(old(self)@, loan_id, status) matches Some(e) ==> r == Err::<
                bool,
                LibError,
            >(e) && final(self)@ == old(self)@,
            close_refusal(old(self)@, loan_id, status) is None ==> r == Ok::<bool, LibError>(true)
                && exists|d: Date|
                valid_date(d) && final(self)@ == #[trigger] close_loan_spec(
                    old(self)@,
                    loan_id,
                    status,
                    d,
                ).0,
    {
        let d = today();
        let res = self.close_loan(loan_id, status, d);
        proof {
            assert(self@ == close_loan_spec(old(self)@, loan_id, status, d).0);
        }
        res
    }

    /// The book with this identity, if it exists.
    pub fn get_book(&self, id: u128) -> (r: Option<&Book>)
        ensures
            match r {
                Some(b) => book_at(self@.books, id) matches Some(i) && *b == self@.books[i],
                None => book_at(self@.books, id) is None,
            },
    {
        proof {
            lemma_book_at(self@.books, id);
        }
        match self.find_book(id) {
            Some(i) => Some(&self.books[i]),
            None => None,
        }
    }

    /// The member with this identity, if it exists.
    pub fn get_member(&self, id: u128) -> (r: Option<&Member>)
        ensures
            match r {
                Some(m) => member_at(self@.members, id) matches Some(i) && *m == self@.members[i],
                None => member_at(self@.members, id) is None,
            },
    {
        proof {
            lemma_member_at(self@.members, id);
        }
        match self.find_member(id) {
            Some(i) => Some(&self.members[i]),
            None => None,
        }
    }

    /// Insert a book record under its own identity; refused when the
    /// identity is already taken.
    pub fn insert_book(&mut self, b: Book) -> (r: Result<u128, LibError>)
        ensures
            (final(self)@, r) == insert_book_spec(old(self)@, b),
    {
        if self.find_book(b.book_id).is_some() {
            return Err(LibError::StorageError);
        }
        let id = b.book_id;
        self.books.push(b);
        proof {
            assert(self@ =~= (LibView { books: old(self)@.books.push(b), ..old(self)@ }));
        }
        Ok(id)
    }

    /// Insert a member record under its own identity; refused when the
    /// identity is already taken.
    pub fn insert_member(&mut self, m: Member) -> (r: Result<u128, LibError>)
        ensures
            (final(self)@, r) == insert_member_spec(old(self)@, m),
    {
        if self.find_member(m.member_id).is_some() {
            return Err(LibError::StorageError);
        }
        let id = m.member_id;
        self.members.push(m);
        proof {
            assert(self@ =~= (LibView { members: old(self)@.members.push(m), ..old(self)@ }));
        }
        Ok(id)
    }

    /// Update a book's own fields from a payload, answering whether the
    /// book was found. The availability flag belongs to the loan lifecycle
    /// engine and is not taken from the payload.
    pub fn update_book(&mut self, id: u128, payload: NewBook) -> (r: bool)
        ensures
            (final(self)@, r) == update_book_spec(old(self)@, id, payload),
    {
        let bi = match self.find_book(id) {
            Some(bi) => bi,
            None => {
                return false;
            },
        };
        let b = self.books.remove(bi);
        let NewBook { title, author, publication_year, isbn, availability_status: _ } = payload;
        let nb = Book {
            book_id: b.book_id,
            title,
            author,
            publication_year,
            isbn,
            availability_status: b.availability_status,
        };
        self.books.insert(bi, nb);
        proof {
            lemma_remove_insert(old(self)@.books, bi as int, nb);
            assert(self@ =~= update_book_spec(old(self)@, id, payload).0);
        }
        true
    }

    /// Update a member's own fields from a payload, answering whether the
    /// member was found. The borrowed counter belongs to the loan lifecycle
    /// engine and is not taken from the payload.
    pub fn update_member(&mut self, id: u128, payload: NewMember) -> (r: bool)
        ensures
            (final(self)@, r) == update_member_spec(old(self)@, id, payload),
    {
        let mi = match self.find_member(id) {
            Some(mi) => mi,
            None => {
                return false;
            },
        };
        let m = self.members.remove(mi);
        let NewMember { name, email, privilege, borrowed: _ } = payload;
        let nm = Member {
            member_id: m.member_id,
            name,
            email,
            borrowed: m.borrowed,
            privilege,
        };
        self.members.insert(mi, nm);
        proof {
            lemma_remove_insert(old(self)@.members, mi as int, nm);
            assert(self@ =~= update_member_spec(old(self)@, id, payload).0);
        }
        true
    }

    /// Force a book's availability flag, answering whether the book was
    /// found. This is the bare store write; only the loan lifecycle engine
    /// can use it without putting the flag out of step with the loans.
    pub fn update_book_status(&mut self, id: u128, new_val: bool) -> (r: bool)
        ensures
            (final(self)@, r) == update_book_status_spec(old(self)@, id, new_val),
    {
        let bi = match self.find_book(id) {
            Some(bi) => bi,
            None => {
                return false;
            },
        };
        self.set_book_availability(bi, new_val);
        proof {
            assert(self@ =~= update_book_status_spec(old(self)@, id, new_val).0);
        }
        true
    }

    /// Force a loan's return date, answering whether the loan was found.
    /// This is the bare store write; only the loan lifecycle engine can use
    /// it without putting the date out of step with the status.
    pub fn update_loan_return_date(&mut self, id: u128, new_val: Date) -> (r: bool)
        ensures
            (final(self)@, r) == update_loan_return_date_spec(old(self)@, id, new_val),
    {
        let li = match self.find_loan(id) {
            Some(li) => li,
            None => {
                return false;
            },
        };
        let loan = self.loans[li];
        let loan2 = Loan { return_date: Some(new_val), ..loan };
        self.loans.remove(li);
        self.loans.insert(li, loan2);
        proof {
            lemma_remove_insert(old(self)@.loans, li as int, loan2);
            assert(self@ =~= update_loan_return_date_spec(old(self)@, id, new_val).0);
        }
        true
    }

    /// Delete a book. Refused while any open loan still references it, so
    /// that no open loan is ever orphaned.
    pub fn delete_book(&mut self, id: u128) -> (r: Result<(), LibError>)
        ensures
            (final(self)@, r) == delete_book_spec(old(self)@, id),
    {
        let bi = match self.find_book(id) {
            Some(bi) => bi,
            None => {
                return Err(LibError::NotFound);
            },
        };
        let mut j: usize = 0;
        while j < self.loans.len()
            invariant
                j <= self.loans.len(),
                forall|k: int|
                    0 <= k < j ==> !crate::model::holds_book(self.loans@[k], id),
            decreases self.loans.len() - j,
        {
            if self.loans[j].book_id == id && self.loans[j].status == LoanStatus::Open {
                proof {
                    crate::model::lemma_book_count_at_least_one(self@.loans, j as int, id);
                }
                return Err(LibError::PreconditionFailed);
            }
            j += 1;
        }
        proof {
            lemma_book_count_zero(self@.loans, id);
        }
        self.books.remove(bi);
        proof {
            assert(self@ =~= (LibView { books: old(self)@.books.remove(bi as int), ..old(self)@ }));
        }
        Ok(())
    }

    /// Delete a member. The store does not guard this: a loan left behind
    /// surfaces later as an integrity violation when it is closed.
    pub fn delete_member(&mut self, id: u128) -> (r: Result<(), LibError>)
        ensures
            (final(self)@, r) == delete_member_spec(old(self)@, id),
    {
        let mi = match self.find_member(id) {
            Some(mi) => mi,
            None => {
                return Err(LibError::NotFound);
            },
        };
        self.members.remove(mi);
        proof {
            assert(self@ =~= (LibView {
                members: old(self)@.members.remove(mi as int),
                ..old(self)@
            }));
        }
        Ok(())
    }

    /// Open a loan as one unit of work: check that the book exists and is
    /// available, that the member exists, and that the due timestamp falls
    /// on a date; then take the book out of circulation, charge the member,
    /// and append the open loan under the given fresh identity. On any
    /// refusal the store is untouched.
    pub fn open_loan(
        &mut self,
        member_id: u128,
        book_id: u128,
        due_ts: i64,
        today: Date,
        loan_id: u128,
    ) -> (r: Result<u128, LibError>)
        ensures
            (final(self)@, r) == open_loan_spec(
                old(self)@,
                member_id,
                book_id,
                due_ts,
                today,
                loan_id,
            ),
    {
        let bi = match self.find_book(book_id) {
            Some(bi) => bi,
            None => {
                return Err(LibError::NotFound);
            },
        };
        if !self.books[bi].availability_status {
            return Err(LibError::PreconditionFailed);
        }
        let mi = match self.find_member(member_id) {
            Some(mi) => mi,
            None => {
                return Err(LibError::PreconditionFailed);
            },
        };
        let due = match timestamp_to_date(due_ts) {
            Some(d) => d,
            None => {
                return Err(LibError::ValidationError);
            },
        };
        if self.find_loan(loan_id).is_some() {
            return Err(LibError::StorageError);
        }
        let borrowed = self.members[mi].borrowed;
        if borrowed == i32::MAX {
            return Err(LibError::StorageError);
        }
        self.set_book_availability(bi, false);
        self.set_member_borrowed(mi, borrowed + 1);
        self.loans.push(
            Loan {
                loan_id,
                member_id,
                book_id,
                loan_date: today,
                due_date: due,
                return_date: None,
                status: LoanStatus::Open,
            },
        );
        proof {
            assert(self@ =~= open_loan_effect(
                old(self)@,
                bi as int,
                mi as int,
                member_id,
                book_id,
                due_ts,
                today,
                loan_id,
            ));
        }
        Ok(loan_id)
    }

    /// Close a loan as one unit of work: the target status must be terminal
    /// and the loan still open; then the loan takes its terminal status (and
    /// today's date when returned), the book comes back into circulation,
    /// and the member's counter shrinks by one, never below zero. On any
    /// refusal, including a loan whose member no longer resolves, the store
    /// is untouched.
    pub fn close_loan(&mut self, loan_id: u128, new_status: LoanStatus, today: Date) -> (r: Result<
        bool,
        LibError,
    >)
        ensures
            (final(self)@, r) == close_loan_spec(old(self)@, loan_id, new_status, today),
    {
        if new_status == LoanStatus::Open {
            return Err(LibError::PreconditionFailed);
        }
        let li = match self.find_loan(loan_id) {
            Some(li) => li,
            None => {
                return Err(LibError::NotFound);
            },
        };
        let loan = self.loans[li];
        if loan.status != LoanStatus::Open {
            return Err(LibError::PreconditionFailed);
        }
        let mi = match self.find_member(loan.member_id) {
            Some(mi) => mi,
            None => {
                return Err(LibError::IntegrityViolation);
            },
        };
        if let Some(bi) = self.find_book(loan.book_id) {
            self.set_book_availability(bi, true);
        }
        let borrowed = self.members[mi].borrowed;
        let decremented = if borrowed <= 0 {
            borrowed
        } else {
            borrowed - 1
        };
        self.set_member_borrowed(mi, decremented);
        let loan2 = Loan {
            status: new_status,
            return_date: if new_status == LoanStatus::Returned {
                Some(today)
            } else {
                loan.return_date
            },
            ..loan
        };
        self.loans.remove(li);
        self.loans.insert(li, loan2);
        proof {
            lemma_remove_insert(old(self)@.loans, li as int, loan2);
            assert(self@ =~= close_loan_effect(
                old(self)@,
                li as int,
                mi as int,
                new_status,
                today,
            ));
        }
        Ok(true)
    }

    /// The loan with this identity, if it exists.
    pub fn get_loan(&self, id: u128) -> (r: Option<Loan>)
        ensures
            match r {
                Some(l) => loan_at(self@.loans, id) matches Some(i) && l == self@.loans[i],
                None => loan_at(self@.loans, id) is None,
            },
    {
        proof {
            lemma_loan_at(self@.loans, id);
        }
        match self.find_loan(id) {
            Some(i) => Some(self.loans[i]),
            None => None,
        }
    }
}

} // verus!

use lending_library::books::Book;
use lending_library::dates::Date;
use lending_library::errors::LibError;
use lending_library::library::Library;
use lending_library::loans::LoanStatus;
use lending_library::members::Member;

fn seeded() -> (Library, u128, u128) {
    let mut lib = Library::new();
    let book = lib
        .insert_book(Book {
            book_id: 1,
            title: "Dune".to_string(),
            author: "Frank Herbert".to_string(),
            publication_year: 1965,
            isbn: Some("9780441172719".to_string()),
            availability_status: true,
        })
        .unwrap();
    let member = lib
        .insert_member(Member {
            member_id: 100,
            name: "Ada".to_string(),
            email: "ada@example.com".to_string(),
            borrowed: 0,
            privilege: false,
        })
        .unwrap();
    (lib, book, member)
}

const DAY: i64 = 86400;

#[test]
fn open_then_return_restores_everything() {
    let (mut lib, book, member) = seeded();
    let today = Date { year: 2024, month: 5, day: 15 };
    let loan = lib.open_loan(member, book, 100 * DAY, today, 7).unwrap();
    assert_eq!(loan, 7);

    let l = lib.get_loan(loan).unwrap();
    assert_eq!(l.status, LoanStatus::Open);
    assert_eq!(l.loan_date, today);
    assert_eq!(l.due_date, Date { year: 1970, month: 4, day: 11 });
    assert_eq!(l.return_date, None);
    assert_eq!(l.member_id, member);
    assert_eq!(l.book_id, book);
    assert!(!lib.get_book(book).unwrap().availability_status);
    assert_eq!(lib.get_member(member).unwrap().borrowed, 1);

    let later = Date { year: 2024, month: 5, day: 29 };
    assert_eq!(lib.close_loan(loan, LoanStatus::Returned, later), Ok(true));
    let l = lib.get_loan(loan).unwrap();
    assert_eq!(l.status, LoanStatus::Returned);
    assert_eq!(l.return_date, Some(later));
    assert!(lib.get_book(book).unwrap().availability_status);
    assert_eq!(lib.get_member(member).unwrap().borrowed, 0);
}

#[test]
fn open_on_unavailable_book_fails_cleanly() {
    let (mut lib, book, member) = seeded();
    let rival = lib
        .insert_member(Member {
            member_id: 101,
            name: "Grace".to_string(),
            email: "grace@example.com".to_string(),
            borrowed: 0,
            privilege: true,
        })
        .unwrap();
    let today = Date { year: 2024, month: 1, day: 1 };
    lib.open_loan(member, book, DAY, today, 7).unwrap();

    let second = lib.open_loan(rival, book, DAY, today, 8);
    assert_eq!(second, Err(LibError::PreconditionFailed));
    assert!(lib.get_loan(8).is_none());
    assert_eq!(lib.get_member(rival).unwrap().borrowed, 0);
    assert_eq!(lib.get_member(member).unwrap().borrowed, 1);
}

#[test]
fn racing_opens_let_exactly_one_through() {
    let (mut lib, book, member) = seeded();
    let today = Date { year: 2024, month: 1, day: 1 };
    let first = lib.open_loan(member, book, DAY, today, 7);
    let second = lib.open_loan(member, book, DAY, today, 8);
    assert!(first.is_ok());
    assert_eq!(second, Err(LibError::PreconditionFailed));
}

#[test]
fn close_on_missing_loan_is_not_found() {
    let (mut lib, book, member) = seeded();
    let today = Date { year: 2024, month: 1, day: 1 };
    assert_eq!(
        lib.close_loan(999, LoanStatus::Returned, today),
        Err(LibError::NotFound)
    );
    assert!(lib.get_book(book).unwrap().availability_status);
    assert_eq!(lib.get_member(member).unwrap().borrowed, 0);
}

#[test]
fn double_close_is_rejected_and_counter_stays_at_zero() {
    let (mut lib, book, member) = seeded();
    let today = Date { year: 2024, month: 1, day: 1 };
    let loan = lib.open_loan(member, book, DAY, today, 7).unwrap();
    assert_eq!(lib.close_loan(loan, LoanStatus::Returned, today), Ok(true));
    assert_eq!(lib.get_member(member).unwrap().borrowed, 0);

    let again = lib.close_loan(loan, LoanStatus::Returned, today);
    assert_eq!(again, Err(LibError::PreconditionFailed));
    assert_eq!(lib.get_member(member).unwrap().borrowed, 0);
    assert_eq!(lib.get_loan(loan).unwrap().status, LoanStatus::Returned);
}

#[test]
fn close_as_overdue_frees_book_without_return_date() {
    let (mut lib, book, member) = seeded();
    let today = Date { year: 2024, month: 1, day: 1 };
    let loan = lib.open_loan(member, book, DAY, today, 7).unwrap();
    assert_eq!(lib.close_loan(loan, LoanStatus::Overdue, today), Ok(true));
    let l = lib.get_loan(loan).unwrap();
    assert_eq!(l.status, LoanStatus::Overdue);
    assert_eq!(l.return_date, None);
    assert!(lib.get_book(book).unwrap().availability_status);
    assert_eq!(lib.get_member(member).unwrap().borrowed, 0);
}

#[test]
fn close_target_must_be_terminal() {
    let (mut lib, book, member) = seeded();
    let today = Date { year: 2024, month: 1, day: 1 };
    let loan = lib.open_loan(member, book, DAY, today, 7).unwrap();
    assert_eq!(
        lib.close_loan(loan, LoanStatus::Open, today),
        Err(LibError::PreconditionFailed)
    );
    assert_eq!(lib.get_loan(loan).unwrap().status, LoanStatus::Open);
}

#[test]
fn open_with_dateless_timestamp_is_a_validation_error() {
    let (mut lib, book, member) = seeded();
    let today = Date { year: 2024, month: 1, day: 1 };
    let res = lib.open_loan(member, book, i64::MAX, today, 7);
    assert_eq!(res, Err(LibError::ValidationError));
    assert!(lib.get_loan(7).is_none());
    assert_eq!(lib.get_member(member).unwrap().borrowed, 0);
    assert!(lib.get_book(book).unwrap().availability_status);
}

#[test]
fn open_on_missing_book_or_member() {
    let (mut lib, book, member) = seeded();
    let today = Date { year: 2024, month: 1, day: 1 };
    assert_eq!(
        lib.open_loan(member, 999, DAY, today, 7),
        Err(LibError::NotFound)
    );
    assert_eq!(
        lib.open_loan(999, book, DAY, today, 7),
        Err(LibError::PreconditionFailed)
    );
    assert!(lib.get_loan(7).is_none());
}

#[test]
fn closing_a_loan_of_a_vanished_member_is_an_integrity_violation() {
    let (mut lib, book, member) = seeded();
    let today = Date { year: 2024, month: 1, day: 1 };
    let loan = lib.open_loan(member, book, DAY, today, 7).unwrap();
    lib.delete_member(member).unwrap();
    assert_eq!(
        lib.close_loan(loan, LoanStatus::Returned, today),
        Err(LibError::IntegrityViolation)
    );
    assert_eq!(lib.get_loan(loan).unwrap().status, LoanStatus::Open);
    assert!(!lib.get_book(book).unwrap().availability_status);
}

#[test]
fn duplicate_identities_are_storage_errors() {
    let (mut lib, book, member) = seeded();
    let today = Date { year: 2024, month: 1, day: 1 };
    let dup_book = lib.insert_book(Book {
        book_id: book,
        title: "Other".to_string(),
        author: "Other".to_string(),
        publication_year: 2000,
        isbn: None,
        availability_status: true,
    });
    assert_eq!(dup_book, Err(LibError::StorageError));
    let dup_member = lib.insert_member(Member {
        member_id: member,
        name: "Other".to_string(),
        email: "other@example.com".to_string(),
        borrowed: 0,
        privilege: false,
    });
    assert_eq!(dup_member, Err(LibError::StorageError));
    let loan = lib.open_loan(member, book, DAY, today, 7).unwrap();
    assert_eq!(loan, 7);
}

#[test]
fn reusing_a_loan_identity_is_a_storage_error() {
    let (mut lib, book, member) = seeded();
    let other = lib
        .insert_book(Book {
            book_id: 2,
            title: "Emma".to_string(),
            author: "Jane Austen".to_string(),
            publication_year: 1815,
            isbn: None,
            availability_status: true,
        })
        .unwrap();
    let today = Date { year: 2024, month: 1, day: 1 };
    lib.open_loan(member, book, DAY, today, 7).unwrap();
    assert_eq!(
        lib.open_loan(member, other, DAY, today, 7),
        Err(LibError::StorageError)
    );
    assert!(lib.get_book(other).unwrap().availability_status);
}

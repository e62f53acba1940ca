use lending_library::books::{Book, NewBook};
use lending_library::dates::Date;
use lending_library::errors::LibError;
use lending_library::library::Library;
use lending_library::loans::{LoanStatus, NewLoan};
use lending_library::members::{Member, NewMember};

const DAY: i64 = 86400;

fn seeded() -> (Library, u128, u128) {
    let mut lib = Library::new();
    let book = lib
        .insert_book(Book {
            book_id: 1,
            title: "Dune".to_string(),
            author: "Frank Herbert".to_string(),
            publication_year: 1965,
            isbn: Some("9780441172719".to_string()),
            availability_status: true,
        })
        .unwrap();
    let member = lib
        .insert_member(Member {
            member_id: 100,
            name: "Ada".to_string(),
            email: "ada@example.com".to_string(),
            borrowed: 0,
            privilege: false,
        })
        .unwrap();
    (lib, book, member)
}

#[test]
fn add_and_get_records() {
    let mut lib = Library::new();
    let book = lib
        .add_book("Dune", "Frank Herbert", 1965, "9780441172719", true)
        .unwrap();
    let b = lib.get_book(book).unwrap();
    assert_eq!(b.title, "Dune");
    assert_eq!(b.author, "Frank Herbert");
    assert_eq!(b.publication_year, 1965);
    assert_eq!(b.isbn.as_deref(), Some("9780441172719"));
    assert!(b.availability_status);

    let member = lib.add_member("Ada", "ada@example.com", true).unwrap();
    let m = lib.get_member(member).unwrap();
    assert_eq!(m.name, "Ada");
    assert_eq!(m.email, "ada@example.com");
    assert_eq!(m.borrowed, 0);
    assert!(m.privilege);

    assert!(lib.get_book(book.wrapping_add(1)).is_none());
    assert!(lib.get_member(member.wrapping_add(1)).is_none());
}

#[test]
fn full_lifecycle_through_the_public_entry_points() {
    let mut lib = Library::new();
    let book = lib.add_book("Emma", "Jane Austen", 1815, "none", true).unwrap();
    let member = lib.add_member("Ada", "ada@example.com", false).unwrap();
    let loan = lib
        .create_loan(&NewLoan { member_id: member, book_id: book, due_date: 100 * DAY })
        .unwrap();
    assert!(!lib.get_book(book).unwrap().availability_status);
    assert_eq!(lib.get_member(member).unwrap().borrowed, 1);
    assert_eq!(lib.get_loan(loan).unwrap().status, LoanStatus::Open);

    assert_eq!(lib.return_book(loan, LoanStatus::Returned), Ok(true));
    assert!(lib.get_book(book).unwrap().availability_status);
    assert_eq!(lib.get_member(member).unwrap().borrowed, 0);
    assert_eq!(lib.get_loan(loan).unwrap().status, LoanStatus::Returned);
    assert!(lib.get_loan(loan).unwrap().return_date.is_some());

    assert_eq!(
        lib.return_book(loan, LoanStatus::Returned),
        Err(LibError::PreconditionFailed)
    );
}

#[test]
fn update_book_leaves_the_availability_flag_alone() {
    let (mut lib, book, member) = seeded();
    let today = Date { year: 2024, month: 1, day: 1 };
    lib.open_loan(member, book, DAY, today, 7).unwrap();
    let updated = lib.update_book(
        book,
        NewBook {
            title: "Dune Messiah".to_string(),
            author: "Frank Herbert".to_string(),
            publication_year: 1969,
            isbn: None,
            availability_status: true,
        },
    );
    assert!(updated);
    let b = lib.get_book(book).unwrap();
    assert_eq!(b.title, "Dune Messiah");
    assert_eq!(b.publication_year, 1969);
    assert_eq!(b.isbn, None);
    assert!(!b.availability_status);
    assert!(!lib.update_book(
        999,
        NewBook {
            title: "X".to_string(),
            author: "Y".to_string(),
            publication_year: 0,
            isbn: None,
            availability_status: true,
        },
    ));
}

#[test]
fn update_member_leaves_the_borrowed_counter_alone() {
    let (mut lib, book, member) = seeded();
    let today = Date { year: 2024, month: 1, day: 1 };
    lib.open_loan(member, book, DAY, today, 7).unwrap();
    let updated = lib.update_member(
        member,
        NewMember {
            name: "Ada Lovelace".to_string(),
            email: "lovelace@example.com".to_string(),
            privilege: true,
            borrowed: 42,
        },
    );
    assert!(updated);
    let m = lib.get_member(member).unwrap();
    assert_eq!(m.name, "Ada Lovelace");
    assert_eq!(m.email, "lovelace@example.com");
    assert!(m.privilege);
    assert_eq!(m.borrowed, 1);
}

#[test]
fn store_level_writes() {
    let (mut lib, book, member) = seeded();
    assert!(lib.update_book_status(book, false));
    assert!(!lib.get_book(book).unwrap().availability_status);
    assert!(lib.update_book_status(book, true));
    assert!(!lib.update_book_status(999, false));

    let today = Date { year: 2024, month: 1, day: 1 };
    let loan = lib.open_loan(member, book, DAY, today, 7).unwrap();
    let stamp = Date { year: 2024, month: 2, day: 2 };
    assert!(lib.update_loan_return_date(loan, stamp));
    assert_eq!(lib.get_loan(loan).unwrap().return_date, Some(stamp));
    assert!(!lib.update_loan_return_date(999, stamp));
}

#[test]
fn delete_book_refuses_while_a_loan_is_open() {
    let (mut lib, book, member) = seeded();
    let today = Date { year: 2024, month: 1, day: 1 };
    let loan = lib.open_loan(member, book, DAY, today, 7).unwrap();
    assert_eq!(lib.delete_book(book), Err(LibError::PreconditionFailed));
    assert!(lib.get_book(book).is_some());

    lib.close_loan(loan, LoanStatus::Returned, today).unwrap();
    assert_eq!(lib.delete_book(book), Ok(()));
    assert!(lib.get_book(book).is_none());
    assert_eq!(lib.delete_book(book), Err(LibError::NotFound));
}

#[test]
fn delete_member_is_unguarded() {
    let (mut lib, _book, member) = seeded();
    assert_eq!(lib.delete_member(member), Ok(()));
    assert!(lib.get_member(member).is_none());
    assert_eq!(lib.delete_member(member), Err(LibError::NotFound));
}

#[test]
fn status_labels_round_trip_and_reject_garbage() {
    for status in [LoanStatus::Open, LoanStatus::Returned, LoanStatus::Overdue] {
        let label = status.label();
        assert_eq!(LoanStatus::parse_label(&label), Ok(status));
    }
    assert_eq!(LoanStatus::Open.label(), b"open".to_vec());
    assert_eq!(LoanStatus::Returned.label(), b"returned".to_vec());
    assert_eq!(LoanStatus::Overdue.label(), b"overdue".to_vec());
    assert_eq!(
        LoanStatus::parse_label(b"lost"),
        Err(LibError::ValidationError)
    );
    assert_eq!(LoanStatus::parse_label(b""), Err(LibError::ValidationError));
    assert_eq!(
        LoanStatus::parse_label(b"OPEN"),
        Err(LibError::ValidationError)
    );
}

#[test]
fn timestamps_at_the_edge_of_the_calendar() {
    let (mut lib, book, member) = seeded();
    let today = Date { year: 2024, month: 1, day: 1 };
    let epoch_loan = lib.open_loan(member, book, 0, today, 7).unwrap();
    assert_eq!(
        lib.get_loan(epoch_loan).unwrap().due_date,
        Date { year: 1970, month: 1, day: 1 }
    );
    lib.close_loan(epoch_loan, LoanStatus::Returned, today).unwrap();

    let negative = lib.open_loan(member, book, -DAY, today, 8).unwrap();
    assert_eq!(
        lib.get_loan(negative).unwrap().due_date,
        Date { year: 1969, month: 12, day: 31 }
    );
    lib.close_loan(negative, LoanStatus::Returned, today).unwrap();

    assert_eq!(
        lib.open_loan(member, book, i64::MIN, today, 9),
        Err(LibError::ValidationError)
    );
}

use book_series_tracker::job::User;
use book_series_tracker::reads::{
    is_valid_date, mark_read, mark_read_on_date, mark_unread, MarkError, ReadState, ReadTable,
};
use book_series_tracker::store::{Book, BookSeries, Repository};
use book_series_tracker::subscriptions::{Subscription, SubscriptionTable};

#[test]
fn test_is_valid_date() {
    assert!(is_valid_date("2025-01-02"));

    assert!(!is_valid_date("2025-02-31"));
    assert!(!is_valid_date(" 2025-01-02 "));
    assert!(!is_valid_date("2025-01-02 some string"));
    assert!(!is_valid_date("2025-01-02 09:15:46"));
}

fn library() -> Repository {
    let mut repo = Repository::new();
    BookSeries { asin: "S1".to_string(), name: "One".to_string(), time_first_seen: 1 }.save(&mut repo);
    BookSeries { asin: "S2".to_string(), name: "Two".to_string(), time_first_seen: 1 }.save(&mut repo);
    for (asin, series) in [("b1", "S1"), ("b2", "S2"), ("b3", "S1")] {
        Book {
            asin: asin.to_string(),
            series_asin: series.to_string(),
            ordinal: 1,
            title: format!("Title {}", asin),
            author: "A".to_string(),
            release_date: None,
            time_first_seen: 1,
        }
        .save(&mut repo);
    }
    repo
}

#[test]
fn books_of_followed_series_with_read_state() {
    let repo = library();
    let alice = User { username: "alice".to_string() };
    let mut subs = SubscriptionTable::new();
    Subscription::add(&mut subs, &alice, &"S1".to_string());
    let mut reads = ReadTable::new();
    mark_read(&repo, &mut reads, &alice, &"b3".to_string()).unwrap();
    mark_read_on_date(&repo, &mut reads, &alice, &"b3".to_string(), &"2025-01-02".to_string()).unwrap();

    let books = Book::fetch_by_user(&repo, &subs, &reads, &alice).books;
    let asins: Vec<&str> = books.iter().map(|b| b.book.asin.as_str()).collect();
    assert_eq!(asins, vec!["b1", "b3"]);
    assert!(!books[0].read);
    assert!(books[1].read);
    assert_eq!(books[1].read_date.as_deref(), Some("2025-01-02"));

    mark_unread(&repo, &mut reads, &alice, &"b3".to_string()).unwrap();
    let books = Book::fetch_by_user(&repo, &subs, &reads, &alice).books;
    assert!(!books[1].read);
    assert_eq!(reads.rows().len(), 0);
}

#[test]
fn reading_marks_refused() {
    let repo = library();
    let bob = User { username: "bob".to_string() };
    let mut reads = ReadTable::new();
    assert_eq!(mark_read(&repo, &mut reads, &bob, &"nope".to_string()), Err(MarkError::NoSuchBook));
    assert_eq!(
        mark_read_on_date(&repo, &mut reads, &bob, &"b1".to_string(), &"2025-02-31".to_string()),
        Err(MarkError::BadDate)
    );
    assert_eq!(
        mark_read_on_date(&repo, &mut reads, &bob, &"nope".to_string(), &"2025-02-01".to_string()),
        Err(MarkError::NoSuchBook)
    );
    ReadState::add(&mut reads, &bob, &"b1".to_string());
    ReadState::add(&mut reads, &bob, &"b1".to_string());
    assert_eq!(reads.rows().len(), 1);
}

use book_series_tracker::extract::{
    scrape_book_page, scrape_series_page, BookElement, BookPage, ExtractError, SeriesPage,
};
use book_series_tracker::date::DateError;
use book_series_tracker::job::{Job, JobStatus, User};
use book_series_tracker::subscriptions::{Subscription, SubscriptionTable};
use book_series_tracker::params::{params_string, JobParams};
use book_series_tracker::store::{Book, BookSeries, Repository};
use book_series_tracker::tracking::enqueue_series_at;
use book_series_tracker::worker::{Fetched, JobServer};

fn element(ordinal: &str, title: &str, asin: &str, date: Option<&str>) -> BookElement {
    BookElement {
        release_date_html: date.map(|d| d.to_string()),
        ordinal_html: format!("<span>  {} </span>", ordinal),
        title_html: format!("<h3 class=\"a-text-normal\"><b>{}</b></h3>", title),
        title_href: Some(format!("/gp/product/{}?ref_=abc", asin)),
        author_htmls: vec![
            "\n  J.N. Chaney (Author)\n  ,\n ".to_string(),
            "<a>Jonathan Brazee</a> (Author)".to_string(),
        ],
    }
}

fn fixture() -> SeriesPage {
    SeriesPage {
        name_html: "  Backyard Starship \n".to_string(),
        books: vec![
            element("1", "Backyard Starship", "B000000011", None),
            element("2", "The Dark Between", "B000000012", None),
            element("3", "Fist of Orion", "B000000013", Some("November 10, 2024")),
        ],
    }
}

#[test]
fn series_page_records() {
    let r = scrape_series_page(&fixture(), &"B0SERIES01".to_string(), 77).unwrap();
    assert_eq!(r.series.asin, "B0SERIES01");
    assert_eq!(r.series.name, "Backyard Starship");
    assert_eq!(r.series.time_first_seen, 77);
    assert_eq!(r.books.len(), 3);
    let b = &r.books[2];
    assert_eq!(b.asin, "B000000013");
    assert_eq!(b.series_asin, "B0SERIES01");
    assert_eq!(b.ordinal, 3);
    assert_eq!(b.title, "Fist of Orion");
    assert_eq!(b.author, "J.N. Chaney (Author), Jonathan Brazee (Author)");
    assert_eq!(b.release_date.as_deref(), Some("2024-11-10"));
    assert_eq!(r.books[0].release_date, None);
}

#[test]
fn series_page_errors() {
    let mut page = fixture();
    page.books[1].title_href = None;
    page.books[2].ordinal_html = "three".to_string();
    assert!(matches!(
        scrape_series_page(&page, &"B0SERIES01".to_string(), 1),
        Err(ExtractError::MissingLink)
    ));
    let mut page = fixture();
    page.books[0].ordinal_html = "<b>one</b>".to_string();
    assert!(matches!(
        scrape_series_page(&page, &"B0SERIES01".to_string(), 1),
        Err(ExtractError::BadOrdinal)
    ));
    let mut page = fixture();
    page.books[0].release_date_html = Some("Soon".to_string());
    assert!(matches!(
        scrape_series_page(&page, &"B0SERIES01".to_string(), 1),
        Err(ExtractError::BadReleaseDate(DateError::WrongShape))
    ));
    assert_eq!(ExtractError::MissingLink.message(), "Book title link missing.");
}

#[test]
fn book_page_release_date() {
    let item = |spans: &[&str]| spans.iter().map(|s| s.to_string()).collect::<Vec<String>>();
    let page = BookPage {
        detail_items: vec![
            item(&["Publisher", "Someone"]),
            item(&["Language", "English"]),
            item(&["File size", "3 MB"]),
            item(&["Publication date", ":", "September 19, 2021"]),
        ],
    };
    assert_eq!(scrape_book_page(&page).unwrap().release_date, "2021-09-19");
    let short = BookPage { detail_items: vec![item(&["a"]), item(&["b"]), item(&["c"])] };
    assert!(matches!(scrape_book_page(&short), Err(ExtractError::MissingDetails)));
    let empty = BookPage { detail_items: vec![item(&["a"]), item(&["b"]), item(&["c"]), item(&[])] };
    assert!(matches!(scrape_book_page(&empty), Err(ExtractError::MissingDateSpan)));
    let bad = BookPage {
        detail_items: vec![item(&["a"]), item(&["b"]), item(&["c"]), item(&["Nowhere 1, 2020"])],
    };
    assert!(matches!(
        scrape_book_page(&bad),
        Err(ExtractError::BadReleaseDate(DateError::UnknownMonth))
    ));
}

#[test]
fn upsert_if_absent_keeps_first_write() {
    let mut repo = Repository::new();
    let book = |date: Option<&str>, title: &str| Book {
        asin: "B000000011".to_string(),
        series_asin: "B0SERIES01".to_string(),
        ordinal: 1,
        title: title.to_string(),
        author: "A".to_string(),
        release_date: date.map(|d| d.to_string()),
        time_first_seen: 1,
    };
    book(Some("2024-11-10"), "First").save(&mut repo);
    book(None, "Second").save(&mut repo);
    Book::update_release_date(&mut repo, &"B000000011".to_string(), &"2030-01-01".to_string());
    let all = Book::fetch_all(&repo).books;
    assert_eq!(all.len(), 1);
    assert_eq!(all[0].title, "First");
    assert_eq!(all[0].release_date.as_deref(), Some("2024-11-10"));

    let s = |name: &str| BookSeries { asin: "B0SERIES01".to_string(), name: name.to_string(), time_first_seen: 5 };
    s("Kept").save(&mut repo);
    s("Dropped").save(&mut repo);
    let series = BookSeries::fetch_all(&repo);
    assert_eq!(series.len(), 1);
    assert_eq!(series[0].name, "Kept");
    assert_eq!(BookSeries::fetch_by_asin(&repo, &"B0SERIES01".to_string()).unwrap().name, "Kept");
    assert!(BookSeries::fetch_by_asin(&repo, &"B0OTHER001".to_string()).is_none());
}

#[test]
fn release_date_goes_from_unknown_to_known_once() {
    let mut repo = Repository::new();
    Book {
        asin: "B000000011".to_string(),
        series_asin: "B0SERIES01".to_string(),
        ordinal: 1,
        title: "T".to_string(),
        author: "A".to_string(),
        release_date: None,
        time_first_seen: 1,
    }
    .save(&mut repo);
    Book::update_release_date(&mut repo, &"B000000011".to_string(), &"2021-09-19".to_string());
    Book::update_release_date(&mut repo, &"B000000011".to_string(), &"2022-01-01".to_string());
    let books = Book::fetch_by_series_asin(&repo, &"B0SERIES01".to_string());
    assert_eq!(books[0].release_date.as_deref(), Some("2021-09-19"));
}

#[test]
fn delete_series_with_its_books() {
    let mut repo = Repository::new();
    BookSeries { asin: "S1".to_string(), name: "One".to_string(), time_first_seen: 1 }.save(&mut repo);
    BookSeries { asin: "S2".to_string(), name: "Two".to_string(), time_first_seen: 1 }.save(&mut repo);
    for (asin, series) in [("b1", "S1"), ("b2", "S2"), ("b3", "S1")] {
        Book {
            asin: asin.to_string(),
            series_asin: series.to_string(),
            ordinal: 1,
            title: "T".to_string(),
            author: "A".to_string(),
            release_date: None,
            time_first_seen: 1,
        }
        .save(&mut repo);
    }
    BookSeries::delete_by_asin(&mut repo, &"S1".to_string());
    let series = BookSeries::fetch_all(&repo);
    assert_eq!(series.len(), 1);
    assert_eq!(series[0].asin, "S2");
    let books = Book::fetch_all(&repo).books;
    assert_eq!(books.len(), 1);
    assert_eq!(books[0].asin, "b2");
}

#[test]
fn series_job_end_to_end() {
    let mut server = JobServer::new();
    let added = enqueue_series_at(&mut server.queue, "B0SERIES01", None, 1).unwrap();
    let mut job = server.take_next_at(2).unwrap();
    assert_eq!(job.id, added.job_id);
    assert_eq!(job.status, JobStatus::Processing);
    let fetched = Fetched::Series { asin: "B0SERIES01".to_string(), page: Ok(fixture()) };
    server.complete_at(&mut job, fetched, 3).unwrap();
    assert_eq!(job.status, JobStatus::Successful);
    assert_eq!(job.time_finished, Some(3));

    assert_eq!(BookSeries::fetch_all(&server.repository)[0].name, "Backyard Starship");
    let books = Book::fetch_by_series_asin(&server.repository, &"B0SERIES01".to_string());
    assert_eq!(books.len(), 3);

    // one book job per book without a release date, with the series job as parent
    let jobs = Job::fetch_all(&server.queue).jobs;
    let queued: Vec<&Job> = jobs.iter().filter(|j| j.status == JobStatus::Queued).collect();
    assert_eq!(queued.len(), 2);
    for asin in ["B000000011", "B000000012"] {
        let text = params_string(&JobParams::Book { asin: asin.to_string(), parent: job.id });
        assert_eq!(queued.iter().filter(|j| j.params == text).count(), 1);
    }

    // the book jobs run next and fill in the dates
    let mut book_job = server.take_next_at(4).unwrap();
    assert!(book_job.params.contains("B000000011"));
    let item = |s: &str| vec![s.to_string()];
    let page = BookPage { detail_items: vec![item("a"), item("b"), item("c"), item("September 19, 2021")] };
    server
        .complete_at(
            &mut book_job,
            Fetched::Book { asin: "B000000011".to_string(), parent: job.id, page: Ok(page) },
            5,
        )
        .unwrap();
    assert_eq!(book_job.status, JobStatus::Successful);
    let books = Book::fetch_by_series_asin(&server.repository, &"B0SERIES01".to_string());
    assert_eq!(books[0].release_date.as_deref(), Some("2021-09-19"));
}

#[test]
fn failures_are_recorded_on_the_job() {
    let mut server = JobServer::new();
    enqueue_series_at(&mut server.queue, "B0SERIES01", None, 1).unwrap();
    let mut job = server.take_next_at(2).unwrap();
    let fetched = Fetched::Series { asin: "B0SERIES01".to_string(), page: Err("no browser".to_string()) };
    server.complete_at(&mut job, fetched, 3).unwrap();
    assert_eq!(job.status, JobStatus::Failed);
    assert_eq!(job.errors.as_deref(), Some("no browser"));
    assert_eq!(BookSeries::fetch_all(&server.repository).len(), 0);

    enqueue_series_at(&mut server.queue, "B0SERIES02", None, 4).unwrap();
    let mut job = server.take_next_at(5).unwrap();
    server.complete_at(&mut job, Fetched::Unreadable, 6).unwrap();
    assert_eq!(job.status, JobStatus::Failed);
    assert_eq!(
        job.errors.as_deref(),
        Some("Could not deserialize job params, version mismatch.")
    );
    assert!(server.take_next_at(7).is_none());
}

#[test]
fn series_listing_for_a_user() {
    let mut repo = Repository::new();
    BookSeries { asin: "S1".to_string(), name: "One".to_string(), time_first_seen: 1 }.save(&mut repo);
    BookSeries { asin: "S2".to_string(), name: "Two".to_string(), time_first_seen: 1 }.save(&mut repo);
    let alice = User { username: "alice".to_string() };
    let bob = User { username: "bob".to_string() };
    let mut subs = SubscriptionTable::new();
    Subscription::add(&mut subs, &alice, &"S1".to_string());
    Subscription::add(&mut subs, &alice, &"S1".to_string());
    Subscription::add(&mut subs, &bob, &"S1".to_string());
    Subscription::add(&mut subs, &bob, &"S2".to_string());
    assert_eq!(subs.rows().len(), 3);

    let listing = BookSeries::fetch_by_user(&repo, &subs, &alice).series;
    assert_eq!(listing.len(), 2);
    assert_eq!(listing[0].series.asin, "S1");
    assert!(listing[0].subscribed);
    assert_eq!(listing[0].subscribers, 2);
    assert!(!listing[1].subscribed);
    assert_eq!(listing[1].subscribers, 1);

    Subscription::remove(&mut subs, &bob, &"S1".to_string());
    let listing = BookSeries::fetch_by_user(&repo, &subs, &bob).series;
    assert!(!listing[0].subscribed);
    assert_eq!(listing[0].subscribers, 1);
    assert!(listing[1].subscribed);
}

#[test]
fn fetch_single_book() {
    let mut repo = Repository::new();
    Book {
        asin: "B000000011".to_string(),
        series_asin: "S1".to_string(),
        ordinal: 4,
        title: "T".to_string(),
        author: "A".to_string(),
        release_date: None,
        time_first_seen: 1,
    }
    .save(&mut repo);
    assert_eq!(Book::fetch_by_asin(&repo, &"B000000011".to_string()).unwrap().ordinal, 4);
    assert!(Book::fetch_by_asin(&repo, &"B000000012".to_string()).is_none());
}

#[test]
fn fetched_work_must_be_the_jobs_own() {
    let mut server = JobServer::new();
    enqueue_series_at(&mut server.queue, "B0SERIES01", None, 1).unwrap();
    let mut job = server.take_next_at(2).unwrap();
    let fetched = Fetched::Series { asin: "B0SERIES02".to_string(), page: Ok(fixture()) };
    server.complete_at(&mut job, fetched, 3).unwrap();
    assert_eq!(job.status, JobStatus::Failed);
    assert_eq!(job.errors.as_deref(), Some("The fetched page does not belong to the job."));
    assert_eq!(BookSeries::fetch_all(&server.repository).len(), 0);
}

//! Extractors: from the text of a retailer's page elements to records.
//!
//! A browser session reads the elements that the scraper hooks on (by id,
//! class and tag) and hands over their inner HTML and link targets; these
//! functions decide what the records are.
use vstd::prelude::*;
use crate::date::{DateError, date_of, parse_date, parse_u32, u32_of};
use crate::store::{Book, BookSeries, BookView, SeriesView};
use crate::text::{asin_of_url, chars_of, extract_asin, sanitize_string, sanitized, strip_tags,
    without_tags};
use crate::params::push_str;

verus! {

/// What the page shows of one book of a series.
pub struct BookElement {
    /// Inner HTML of the success-styled date label, where there is one
    /// (the book is not out yet).
    pub release_date_html: Option<String>,
    /// Inner HTML of the book's position label.
    pub ordinal_html: String,
    /// Inner HTML of the title link.
    pub title_html: String,
    /// Target of the title link.
    pub title_href: Option<String>,
    /// Inner HTML of each contributor label.
    pub author_htmls: Vec<String>,
}

/// What a series landing page shows, once every book is listed.
pub struct SeriesPage {
    /// Inner HTML of the series title.
    pub name_html: String,
    pub books: Vec<BookElement>,
}

/// What a book's product page shows: for each entry of the "product
/// details" list, the inner HTML of each of its inline labels.
pub struct BookPage {
    pub detail_items: Vec<Vec<String>>,
}

/// The records that a series page gives.
pub struct ScrapeSeriesPageResult {
    pub series: BookSeries,
    pub books: Vec<Book>,
}

/// The release date that a book page gives, as stored.
pub struct ScrapeBookPageResult {
    pub release_date: String,
}

/// Why a page gave no records.
#[derive(PartialEq, Eq, Structural, Clone, Copy, Debug)]
pub enum ExtractError {
    /// A release date label holds no date.
    BadReleaseDate(DateError),
    /// A position label holds no number.
    BadOrdinal,
    /// A title has no link.
    MissingLink,
    /// The product details list has fewer than four entries.
    MissingDetails,
    /// The publication date entry has no label.
    MissingDateSpan,
}

/// The text with which a failed job records `e`.
pub open spec fn extract_error_text(e: ExtractError) -> Seq<char> {
    match e {
        ExtractError::BadReleaseDate(_) => "Incorrect date"@,
        ExtractError::BadOrdinal => "Book ordinal is not a number."@,
        ExtractError::MissingLink => "Book title link missing."@,
        ExtractError::MissingDetails => "Product details missing."@,
        ExtractError::MissingDateSpan => "Publication date span missing."@,
    }
}

impl ExtractError {
    /// The text with which a failed job records this error.
    pub fn message(&self) -> (r: String)
        ensures
            r@ == extract_error_text(*self),
    {
        let mut out: Vec<char> = Vec::new();
        match self {
            ExtractError::BadReleaseDate(_) => push_str(&mut out, "Incorrect date"),
            ExtractError::BadOrdinal => push_str(&mut out, "Book ordinal is not a number."),
            ExtractError::MissingLink => push_str(&mut out, "Book title link missing."),
            ExtractError::MissingDetails => push_str(&mut out, "Product details missing."),
            ExtractError::MissingDateSpan => push_str(&mut out, "Publication date span missing."),
        }
        assert(out@ =~= extract_error_text(*self));
        crate::text::string_of(out.as_slice())
    }
}

/// `parts` joined by ", ".
pub open spec fn joined(parts: Seq<Seq<char>>) -> Seq<char>
    decreases parts.len(),
{
    if parts.len() == 0 {
        Seq::empty()
    } else if parts.len() == 1 {
        parts[0]
    } else {
        joined(parts.drop_last()) + ", "@ + parts.last()
    }
}

/// Contributor names as stored: each label without tags and cleaned, then
/// joined by ", ".
pub open spec fn authors_text(htmls: Seq<String>) -> Seq<char> {
    joined(htmls.map_values(|h: String| sanitized(without_tags(h@))))
}

/// The book record that element `e` of series `series_asin`'s page gives,
/// first seen at `t`, or why it gives none.
pub open spec fn book_of(e: BookElement, series_asin: Seq<char>, t: i64) -> Result<BookView, ExtractError> {
    let date = match e.release_date_html {
        Some(h) => match date_of(h@) {
            Ok(d) => Ok(Some(d)),
            Err(x) => Err(ExtractError::BadReleaseDate(x)),
        },
        None => Ok(None),
    };
    match date {
        Err(x) => Err(x),
        Ok(release_date) => match u32_of(sanitized(without_tags(e.ordinal_html@))) {
            None => Err(ExtractError::BadOrdinal),
            Some(ordinal) => match e.title_href {
                None => Err(ExtractError::MissingLink),
                Some(href) => Ok(
                    BookView {
                        asin: asin_of_url(sanitized(href@)),
                        series_asin,
                        ordinal,
                        title: sanitized(without_tags(e.title_html@)),
                        author: authors_text(e.author_htmls@),
                        release_date,
                        time_first_seen: t,
                    },
                ),
            },
        },
    }
}

proof fn lemma_joined_step(parts: Seq<Seq<char>>, i: int)
    requires
        0 <= i < parts.len(),
    ensures
        joined(parts.take(i + 1)) == if i == 0 {
            parts[0]
        } else {
            joined(parts.take(i)) + ", "@ + parts[i]
        },
{
    assert(parts.take(i + 1).drop_last() =~= parts.take(i));
}

fn authors_of(htmls: &Vec<String>) -> (r: String)
    ensures
        r@ == authors_text(htmls@),
{
    let ghost parts = htmls@.map_values(|h: String| sanitized(without_tags(h@)));
    let mut out: Vec<char> = Vec::new();
    let mut i: usize = 0;
    while i < htmls.len()
        invariant
            i <= htmls@.len(),
            parts == htmls@.map_values(|h: String| sanitized(without_tags(h@))),
            out@ == joined(parts.take(i as int)),
        decreases htmls@.len() - i,
    {
        proof {
            lemma_joined_step(parts, i as int);
        }
        if i > 0 {
            push_str(&mut out, ", ");
        }
        let name = sanitize_string(strip_tags(htmls[i].clone()));
        push_str(&mut out, name.as_str());
        i = i + 1;
    }
    assert(parts.take(i as int) =~= parts);
    crate::text::string_of(out.as_slice())
}

/// The book record that element `e` gives; see `book_of`.
pub fn scrape_book_element(e: &BookElement, series_asin: &String, time_first_seen: i64) -> (r:
    Result<Book, ExtractError>)
    ensures
        match (r, book_of(*e, series_asin@, time_first_seen)) {
            (Ok(b), Ok(v)) => b@ == v,
            (Err(x), Err(y)) => x == y,
            _ => false,
        },
{
    let release_date = match &e.release_date_html {
        Some(h) => match parse_date(h.clone()) {
            Ok(d) => Some(d),
            Err(x) => return Err(ExtractError::BadReleaseDate(x)),
        },
        None => None,
    };
    let ordinal_text = sanitize_string(strip_tags(e.ordinal_html.clone()));
    let ordinal = match parse_u32(chars_of(ordinal_text.as_str()).as_slice()) {
        Some(n) => n,
        None => return Err(ExtractError::BadOrdinal),
    };
    let title = sanitize_string(strip_tags(e.title_html.clone()));
    let asin = match &e.title_href {
        Some(href) => extract_asin(sanitize_string(href.clone())),
        None => return Err(ExtractError::MissingLink),
    };
    let author = authors_of(&e.author_htmls);
    Ok(Book {
        asin,
        series_asin: series_asin.clone(),
        ordinal,
        title,
        author,
        release_date,
        time_first_seen,
    })
}

/// The book records that elements `es` give, in order, or the error of the
/// first element that gives none.
pub open spec fn page_books(es: Seq<BookElement>, series_asin: Seq<char>, t: i64) -> Result<
    Seq<BookView>,
    ExtractError,
>
    decreases es.len(),
{
    if es.len() == 0 {
        Ok(Seq::empty())
    } else {
        match page_books(es.drop_last(), series_asin, t) {
            Err(x) => Err(x),
            Ok(bs) => match book_of(es.last(), series_asin, t) {
                Err(x) => Err(x),
                Ok(b) => Ok(bs.push(b)),
            },
        }
    }
}

/// The series record and book records that `page` gives for series
/// `series_asin`, first seen at `time_first_seen`: one book per element, in
/// page order, or the error of the first element that gives none.
pub fn scrape_series_page(page: &SeriesPage, series_asin: &String, time_first_seen: i64) -> (r:
    Result<ScrapeSeriesPageResult, ExtractError>)
    ensures
        match (r, page_books(page.books@, series_asin@, time_first_seen)) {
            (Ok(res), Ok(bs)) => {
                &&& res.series@ == (SeriesView {
                    asin: series_asin@,
                    name: sanitized(page.name_html@),
                    time_first_seen,
                })
                &&& res.books@.map_values(|b: Book| b@) == bs
            },
            (Err(x), Err(y)) => x == y,
            _ => false,
        },
{
    let mut books: Vec<Book> = Vec::new();
    let mut i: usize = 0;
    assert(page.books@.take(0) =~= Seq::<BookElement>::empty());
    assert(books@.map_values(|b: Book| b@) =~= Seq::<BookView>::empty());
    while i < page.books.len()
        invariant
            i <= page.books@.len(),
            page_books(page.books@.take(i as int), series_asin@, time_first_seen) == Ok::<
                Seq<BookView>,
                ExtractError,
            >(books@.map_values(|b: Book| b@)),
        decreases page.books@.len() - i,
    {
        assert(page.books@.take(i + 1).drop_last() =~= page.books@.take(i as int));
        let ghost prev = books@;
        match scrape_book_element(&page.books[i], series_asin, time_first_seen) {
            Ok(b) => {
                books.push(b);
                assert(books@.map_values(|b: Book| b@) =~= prev.map_values(|b: Book| b@).push(b@));
            },
            Err(x) => {
                proof {
                    lemma_page_books_prefix_err(page.books@, series_asin@, time_first_seen, i + 1);
                }
                return Err(x);
            },
        }
        i = i + 1;
    }
    assert(page.books@.take(i as int) =~= page.books@);
    let name = sanitize_string(page.name_html.clone());
    Ok(ScrapeSeriesPageResult {
        series: BookSeries { asin: series_asin.clone(), name, time_first_seen },
        books,
    })
}

/// An error among the first `n` elements is the error of all of them.
proof fn lemma_page_books_prefix_err(es: Seq<BookElement>, series_asin: Seq<char>, t: i64, n: int)
    requires
        0 <= n <= es.len(),
        page_books(es.take(n), series_asin, t) is Err,
    ensures
        page_books(es, series_asin, t) == page_books(es.take(n), series_asin, t),
    decreases es.len() - n,
{
    if n < es.len() {
        assert(es.take(n + 1).drop_last() =~= es.take(n));
        lemma_page_books_prefix_err(es, series_asin, t, n + 1);
    } else {
        assert(es.take(n) =~= es);
    }
}

/// The release date that a book page gives: the last label of the fourth
/// entry of its product details, read as a date.
pub open spec fn release_date_of(page: BookPage) -> Result<Seq<char>, ExtractError> {
    if page.detail_items@.len() < 4 {
        Err(ExtractError::MissingDetails)
    } else if page.detail_items@[3]@.len() == 0 {
        Err(ExtractError::MissingDateSpan)
    } else {
        match date_of(page.detail_items@[3]@.last()@) {
            Ok(d) => Ok(d),
            Err(x) => Err(ExtractError::BadReleaseDate(x)),
        }
    }
}

/// The release date that `page` gives; see `release_date_of`.
pub fn scrape_book_page(page: &BookPage) -> (r: Result<ScrapeBookPageResult, ExtractError>)
    ensures
        match (r, release_date_of(*page)) {
            (Ok(res), Ok(d)) => res.release_date@ == d,
            (Err(x), Err(y)) => x == y,
            _ => false,
        },
{
    if page.detail_items.len() < 4 {
        return Err(ExtractError::MissingDetails);
    }
    let spans = &page.detail_items[3];
    if spans.len() == 0 {
        return Err(ExtractError::MissingDateSpan);
    }
    match parse_date(spans[spans.len() - 1].clone()) {
        Ok(d) => Ok(ScrapeBookPageResult { release_date: d }),
        Err(x) => Err(ExtractError::BadReleaseDate(x)),
    }
}

} // verus!

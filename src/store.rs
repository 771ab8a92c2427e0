//! Series and books discovered by scraping, with their upsert-if-absent rules.
//!
//! A series or book is keyed by its product id. Saving one whose id is
//! already recorded changes nothing: the first write wins. A book's release
//! date only ever goes from unknown to known.
use vstd::prelude::*;
use vstd::pervasive::VecAdditionalExecFns;

verus! {

/// A tracked series.
pub struct BookSeries {
    pub asin: String,
    pub name: String,
    pub time_first_seen: i64,
}

/// A book of a series. `release_date` is `YYYY-MM-DD`, or `None` where the
/// series page did not show it (the book is out already).
pub struct Book {
    pub asin: String,
    pub series_asin: String,
    pub ordinal: u32,
    pub title: String,
    pub author: String,
    pub release_date: Option<String>,
    pub time_first_seen: i64,
}

/// All books.
pub struct GetAllBooksResult {
    pub books: Vec<Book>,
}

pub struct SeriesView {
    pub asin: Seq<char>,
    pub name: Seq<char>,
    pub time_first_seen: i64,
}

pub struct BookView {
    pub asin: Seq<char>,
    pub series_asin: Seq<char>,
    pub ordinal: u32,
    pub title: Seq<char>,
    pub author: Seq<char>,
    pub release_date: Option<Seq<char>>,
    pub time_first_seen: i64,
}

impl View for BookSeries {
    type V = SeriesView;

    open spec fn view(&self) -> SeriesView {
        SeriesView { asin: self.asin@, name: self.name@, time_first_seen: self.time_first_seen }
    }
}

impl View for Book {
    type V = BookView;

    open spec fn view(&self) -> BookView {
        BookView {
            asin: self.asin@,
            series_asin: self.series_asin@,
            ordinal: self.ordinal,
            title: self.title@,
            author: self.author@,
            release_date: match self.release_date {
                Some(d) => Some(d@),
                None => None,
            },
            time_first_seen: self.time_first_seen,
        }
    }
}

/// The series and book tables, in order of first save.
pub struct Repository {
    series: Vec<BookSeries>,
    books: Vec<Book>,
}

pub struct RepositoryView {
    pub series: Seq<SeriesView>,
    pub books: Seq<BookView>,
}

impl View for Repository {
    type V = RepositoryView;

    closed spec fn view(&self) -> RepositoryView {
        RepositoryView {
            series: self.series@.map_values(|s: BookSeries| s@),
            books: self.books@.map_values(|b: Book| b@),
        }
    }
}

/// Index of the first series at or after `i` with id `asin`, or the number of series.
pub open spec fn find_series(rows: Seq<SeriesView>, asin: Seq<char>, i: int) -> int
    decreases rows.len() - i,
{
    if i < 0 || i >= rows.len() {
        rows.len() as int
    } else if rows[i].asin == asin {
        i
    } else {
        find_series(rows, asin, i + 1)
    }
}

/// Index of the first book at or after `i` with id `asin`, or the number of books.
pub open spec fn find_book(rows: Seq<BookView>, asin: Seq<char>, i: int) -> int
    decreases rows.len() - i,
{
    if i < 0 || i >= rows.len() {
        rows.len() as int
    } else if rows[i].asin == asin {
        i
    } else {
        find_book(rows, asin, i + 1)
    }
}

pub open spec fn has_series(r: RepositoryView, asin: Seq<char>) -> bool {
    exists|i: int| 0 <= i < r.series.len() && #[trigger] r.series[i].asin == asin
}

pub open spec fn has_book(r: RepositoryView, asin: Seq<char>) -> bool {
    exists|i: int| 0 <= i < r.books.len() && #[trigger] r.books[i].asin == asin
}

/// The invariant of the tables: product ids are unique in each.
pub open spec fn repository_wf(r: RepositoryView) -> bool {
    &&& forall|i: int, j: int|
        0 <= i < r.series.len() && 0 <= j < r.series.len() && i != j ==> #[trigger] r.series[i].asin
            != #[trigger] r.series[j].asin
    &&& forall|i: int, j: int|
        0 <= i < r.books.len() && 0 <= j < r.books.len() && i != j ==> #[trigger] r.books[i].asin
            != #[trigger] r.books[j].asin
}

/// Saving series `s`: recorded where its id is new, ignored otherwise.
pub open spec fn save_series(r: RepositoryView, s: SeriesView) -> RepositoryView {
    if has_series(r, s.asin) {
        r
    } else {
        RepositoryView { series: r.series.push(s), ..r }
    }
}

/// Saving book `b`: recorded where its id is new, ignored otherwise.
pub open spec fn save_book(r: RepositoryView, b: BookView) -> RepositoryView {
    if has_book(r, b.asin) {
        r
    } else {
        RepositoryView { books: r.books.push(b), ..r }
    }
}

/// Setting the release date of book `asin`: only where it is recorded
/// without one.
pub open spec fn set_release_date(r: RepositoryView, asin: Seq<char>, date: Seq<char>) -> RepositoryView {
    let k = find_book(r.books, asin, 0);
    if k < r.books.len() && r.books[k].release_date is None {
        RepositoryView {
            books: r.books.update(k, BookView { release_date: Some(date), ..r.books[k] }),
            ..r
        }
    } else {
        r
    }
}

/// The books of series `asin`, in order of first save.
pub open spec fn books_of_series(books: Seq<BookView>, asin: Seq<char>) -> Seq<BookView>
    decreases books.len(),
{
    if books.len() == 0 {
        books
    } else if books.last().series_asin == asin {
        books_of_series(books.drop_last(), asin).push(books.last())
    } else {
        books_of_series(books.drop_last(), asin)
    }
}

/// The series other than `asin`, in order.
pub open spec fn series_without(rows: Seq<SeriesView>, asin: Seq<char>) -> Seq<SeriesView>
    decreases rows.len(),
{
    if rows.len() == 0 {
        rows
    } else if rows.last().asin == asin {
        series_without(rows.drop_last(), asin)
    } else {
        series_without(rows.drop_last(), asin).push(rows.last())
    }
}

/// The books of series other than `asin`, in order.
pub open spec fn books_without_series(books: Seq<BookView>, asin: Seq<char>) -> Seq<BookView>
    decreases books.len(),
{
    if books.len() == 0 {
        books
    } else if books.last().series_asin == asin {
        books_without_series(books.drop_last(), asin)
    } else {
        books_without_series(books.drop_last(), asin).push(books.last())
    }
}

pub proof fn lemma_find_series(rows: Seq<SeriesView>, asin: Seq<char>, i: int)
    requires
        0 <= i <= rows.len(),
    ensures
        i <= find_series(rows, asin, i) <= rows.len(),
        find_series(rows, asin, i) < rows.len() ==> rows[find_series(rows, asin, i)].asin == asin,
        forall|k: int| i <= k < find_series(rows, asin, i) ==> #[trigger] rows[k].asin != asin,
    decreases rows.len() - i,
{
    if i < rows.len() && rows[i].asin != asin {
        lemma_find_series(rows, asin, i + 1);
    }
}

pub proof fn lemma_find_book(rows: Seq<BookView>, asin: Seq<char>, i: int)
    requires
        0 <= i <= rows.len(),
    ensures
        i <= find_book(rows, asin, i) <= rows.len(),
        find_book(rows, asin, i) < rows.len() ==> rows[find_book(rows, asin, i)].asin == asin,
        forall|k: int| i <= k < find_book(rows, asin, i) ==> #[trigger] rows[k].asin != asin,
    decreases rows.len() - i,
{
    if i < rows.len() && rows[i].asin != asin {
        lemma_find_book(rows, asin, i + 1);
    }
}

proof fn lemma_series_without_unique(rows: Seq<SeriesView>, asin: Seq<char>)
    requires
        forall|i: int, j: int|
            0 <= i < rows.len() && 0 <= j < rows.len() && i != j ==> #[trigger] rows[i].asin
                != #[trigger] rows[j].asin,
    ensures
        ({
            let w = series_without(rows, asin);
            &&& forall|k: int| 0 <= k < w.len() ==> exists|m: int| 0 <= m < rows.len() && #[trigger] w[k] == rows[m]
            &&& forall|i: int, j: int|
                0 <= i < w.len() && 0 <= j < w.len() && i != j ==> #[trigger] w[i].asin
                    != #[trigger] w[j].asin
        }),
    decreases rows.len(),
{
    if rows.len() > 0 {
        let d = rows.drop_last();
        lemma_series_without_unique(d, asin);
        let w0 = series_without(d, asin);
        let w = series_without(rows, asin);
        assert forall|k: int| 0 <= k < w.len() implies exists|m: int| 0 <= m < rows.len() && #[trigger] w[k] == rows[m] by {
            if k < w0.len() {
                let m = choose|m: int| 0 <= m < d.len() && w0[k] == d[m];
                assert(w[k] == rows[m]);
            } else {
                assert(w[k] == rows[rows.len() - 1]);
            }
        }
        if rows.last().asin != asin {
            assert forall|i: int, j: int|
                0 <= i < w.len() && 0 <= j < w.len() && i != j implies #[trigger] w[i].asin
                != #[trigger] w[j].asin by {
                if i < w0.len() && j == w0.len() {
                    let m = choose|m: int| 0 <= m < d.len() && w0[i] == d[m];
                    assert(d[m] == rows[m]);
                } else if j < w0.len() && i == w0.len() {
                    let m = choose|m: int| 0 <= m < d.len() && w0[j] == d[m];
                    assert(d[m] == rows[m]);
                }
            }
        }
    }
}

proof fn lemma_books_without_unique(rows: Seq<BookView>, asin: Seq<char>)
    requires
        forall|i: int, j: int|
            0 <= i < rows.len() && 0 <= j < rows.len() && i != j ==> #[trigger] rows[i].asin
                != #[trigger] rows[j].asin,
    ensures
        ({
            let w = books_without_series(rows, asin);
            &&& forall|k: int| 0 <= k < w.len() ==> exists|m: int| 0 <= m < rows.len() && #[trigger] w[k] == rows[m]
            &&& forall|i: int, j: int|
                0 <= i < w.len() && 0 <= j < w.len() && i != j ==> #[trigger] w[i].asin
                    != #[trigger] w[j].asin
        }),
    decreases rows.len(),
{
    if rows.len() > 0 {
        let d = rows.drop_last();
        lemma_books_without_unique(d, asin);
        let w0 = books_without_series(d, asin);
        let w = books_without_series(rows, asin);
        assert forall|k: int| 0 <= k < w.len() implies exists|m: int| 0 <= m < rows.len() && #[trigger] w[k] == rows[m] by {
            if k < w0.len() {
                let m = choose|m: int| 0 <= m < d.len() && w0[k] == d[m];
                assert(w[k] == rows[m]);
            } else {
                assert(w[k] == rows[rows.len() - 1]);
            }
        }
        if rows.last().series_asin != asin {
            assert forall|i: int, j: int|
                0 <= i < w.len() && 0 <= j < w.len() && i != j implies #[trigger] w[i].asin
                != #[trigger] w[j].asin by {
                if i < w0.len() && j == w0.len() {
                    let m = choose|m: int| 0 <= m < d.len() && w0[i] == d[m];
                    assert(d[m] == rows[m]);
                } else if j < w0.len() && i == w0.len() {
                    let m = choose|m: int| 0 <= m < d.len() && w0[j] == d[m];
                    assert(d[m] == rows[m]);
                }
            }
        }
    }
}

/// Saving a series or book whose product id is recorded changes nothing:
/// the recorded fields, a known release date among them, stay as they were.
pub proof fn law_upsert_if_absent(r: RepositoryView, s: SeriesView, b: BookView)
    ensures
        has_series(r, s.asin) ==> save_series(r, s) == r,
        has_book(r, b.asin) ==> save_book(r, b) == r,
{
}

/// A release date once recorded is never cleared or replaced: not by saving
/// the book again, nor by setting its date.
pub proof fn law_release_date_kept(r: RepositoryView, k: int, b: BookView, asin: Seq<char>, date: Seq<char>)
    requires
        repository_wf(r),
        0 <= k < r.books.len(),
        r.books[k].release_date is Some,
    ensures
        save_book(r, b).books[k] == r.books[k],
        set_release_date(r, asin, date).books[k] == r.books[k],
{
    lemma_find_book(r.books, asin, 0);
    let j = find_book(r.books, asin, 0);
    if j < r.books.len() && j != k {
        assert(set_release_date(r, asin, date).books[k] == r.books[k]);
    }
}

fn copy_string(s: &String) -> (r: String)
    ensures
        r == *s,
{
    s.clone()
}

/// An exact copy of `s`.
pub fn copy_series(s: &BookSeries) -> (r: BookSeries)
    ensures
        r == *s,
{
    BookSeries { asin: copy_string(&s.asin), name: copy_string(&s.name), time_first_seen: s.time_first_seen }
}

/// An exact copy of `b`.
pub fn copy_book(b: &Book) -> (r: Book)
    ensures
        r == *b,
{
    Book {
        asin: copy_string(&b.asin),
        series_asin: copy_string(&b.series_asin),
        ordinal: b.ordinal,
        title: copy_string(&b.title),
        author: copy_string(&b.author),
        release_date: match &b.release_date {
            Some(d) => Some(copy_string(d)),
            None => None,
        },
        time_first_seen: b.time_first_seen,
    }
}

impl Repository {
    /// The tables' invariant holds (see `repository_wf`).
    pub closed spec fn wf(&self) -> bool {
        repository_wf(self@)
    }

    pub proof fn lemma_wf(&self)
        ensures
            self.wf() == repository_wf(self@),
    {
    }

    /// Empty tables.
    pub fn new() -> (r: Repository)
        ensures
            r.wf(),
            r@.series.len() == 0,
            r@.books.len() == 0,
    {
        let r = Repository { series: Vec::new(), books: Vec::new() };
        assert(r@.series =~= Seq::<SeriesView>::empty());
        assert(r@.books =~= Seq::<BookView>::empty());
        r
    }

    fn series_index(&self, asin: &String) -> (r: usize)
        ensures
            r as int == find_series(self@.series, asin@, 0),
    {
        let mut i: usize = 0;
        while i < self.series.len()
            invariant
                i <= self.series@.len(),
                find_series(self@.series, asin@, 0) == find_series(self@.series, asin@, i as int),
            decreases self.series@.len() - i,
        {
            assert(self@.series[i as int] == self.series@[i as int]@);
            if self.series[i].asin == *asin {
                return i;
            }
            i = i + 1;
        }
        i
    }

    fn book_index(&self, asin: &String) -> (r: usize)
        ensures
            r as int == find_book(self@.books, asin@, 0),
    {
        let mut i: usize = 0;
        while i < self.books.len()
            invariant
                i <= self.books@.len(),
                find_book(self@.books, asin@, 0) == find_book(self@.books, asin@, i as int),
            decreases self.books@.len() - i,
        {
            assert(self@.books[i as int] == self.books@[i as int]@);
            if self.books[i].asin == *asin {
                return i;
            }
            i = i + 1;
        }
        i
    }
}

impl BookSeries {
    /// Records this series unless one with its id is recorded already.
    pub fn save(&self, repository: &mut Repository)
        requires
            old(repository).wf(),
        ensures
            final(repository).wf(),
            final(repository)@ == save_series(old(repository)@, self@),
    {
        let ghost r = repository@;
        let k = repository.series_index(&self.asin);
        proof {
            lemma_find_series(r.series, self.asin@, 0);
        }
        if k < repository.series.len() {
            return;
        }
        assert(!has_series(r, self.asin@));
        repository.series.push(copy_series(self));
        assert(repository@.series =~= r.series.push(self@));
        assert(repository@.books =~= r.books);
    }

    /// The series with id `asin`, if recorded.
    pub fn fetch_by_asin(repository: &Repository, asin: &String) -> (r: Option<BookSeries>)
        ensures
            match r {
                Some(s) => has_series(repository@, asin@) && s@ == repository@.series[find_series(
                    repository@.series,
                    asin@,
                    0,
                )],
                None => !has_series(repository@, asin@),
            },
    {
        let k = repository.series_index(asin);
        proof {
            lemma_find_series(repository@.series, asin@, 0);
        }
        if k < repository.series.len() {
            assert(repository@.series[k as int] == repository.series@[k as int]@);
            Some(copy_series(&repository.series[k]))
        } else {
            None
        }
    }

    /// Every recorded series, in order of first save.
    pub fn fetch_all(repository: &Repository) -> (r: Vec<BookSeries>)
        ensures
            r@.map_values(|s: BookSeries| s@) == repository@.series,
    {
        let mut r: Vec<BookSeries> = Vec::new();
        let mut i: usize = 0;
        while i < repository.series.len()
            invariant
                i <= repository.series@.len(),
                r@.map_values(|s: BookSeries| s@) == repository@.series.take(i as int),
            decreases repository.series@.len() - i,
        {
            assert(repository@.series[i as int] == repository.series@[i as int]@);
            let ghost prev = r@;
            r.push(copy_series(&repository.series[i]));
            assert(r@.map_values(|s: BookSeries| s@) =~= prev.map_values(|s: BookSeries| s@).push(repository@.series[i as int]));
            assert(repository@.series.take(i + 1) =~= repository@.series.take(i as int).push(repository@.series[i as int]));
            i = i + 1;
        }
        assert(repository@.series.take(i as int) =~= repository@.series);
        r
    }

    /// Removes series `asin` and all its books.
    pub fn delete_by_asin(repository: &mut Repository, asin: &String)
        requires
            old(repository).wf(),
        ensures
            final(repository).wf(),
            final(repository)@.series == series_without(old(repository)@.series, asin@),
            final(repository)@.books == books_without_series(old(repository)@.books, asin@),
    {
        let ghost r = repository@;
        let mut series: Vec<BookSeries> = Vec::new();
        let mut i: usize = 0;
        while i < repository.series.len()
            invariant
                i <= repository.series@.len(),
                repository@ == r,
                series@.map_values(|s: BookSeries| s@) == series_without(r.series.take(i as int), asin@),
            decreases repository.series@.len() - i,
        {
            assert(r.series.take(i + 1).drop_last() =~= r.series.take(i as int));
            assert(r.series[i as int] == repository.series@[i as int]@);
            if repository.series[i].asin != *asin {
                series.push(copy_series(&repository.series[i]));
                assert(series@.map_values(|s: BookSeries| s@) =~= series_without(r.series.take(i as int), asin@).push(r.series[i as int]));
            }
            i = i + 1;
        }
        assert(r.series.take(i as int) =~= r.series);
        let mut books: Vec<Book> = Vec::new();
        let mut j: usize = 0;
        while j < repository.books.len()
            invariant
                j <= repository.books@.len(),
                repository@ == r,
                books@.map_values(|b: Book| b@) == books_without_series(r.books.take(j as int), asin@),
            decreases repository.books@.len() - j,
        {
            assert(r.books.take(j + 1).drop_last() =~= r.books.take(j as int));
            assert(r.books[j as int] == repository.books@[j as int]@);
            if repository.books[j].series_asin != *asin {
                books.push(copy_book(&repository.books[j]));
                assert(books@.map_values(|b: Book| b@) =~= books_without_series(r.books.take(j as int), asin@).push(r.books[j as int]));
            }
            j = j + 1;
        }
        assert(r.books.take(j as int) =~= r.books);
        repository.series = series;
        repository.books = books;
        proof {
            lemma_series_without_unique(r.series, asin@);
            lemma_books_without_unique(r.books, asin@);
        }
    }
}

impl Book {
    /// Records this book unless one with its id is recorded already.
    pub fn save(&self, repository: &mut Repository)
        requires
            old(repository).wf(),
        ensures
            final(repository).wf(),
            final(repository)@ == save_book(old(repository)@, self@),
    {
        let ghost r = repository@;
        let k = repository.book_index(&self.asin);
        proof {
            lemma_find_book(r.books, self.asin@, 0);
        }
        if k < repository.books.len() {
            return;
        }
        assert(!has_book(r, self.asin@));
        repository.books.push(copy_book(self));
        assert(repository@.books =~= r.books.push(self@));
        assert(repository@.series =~= r.series);
    }

    /// The books of series `asin`, in order of first save.
    pub fn fetch_by_series_asin(repository: &Repository, asin: &String) -> (r: Vec<Book>)
        ensures
            r@.map_values(|b: Book| b@) == books_of_series(repository@.books, asin@),
    {
        let mut r: Vec<Book> = Vec::new();
        let mut i: usize = 0;
        while i < repository.books.len()
            invariant
                i <= repository.books@.len(),
                r@.map_values(|b: Book| b@) == books_of_series(repository@.books.take(i as int), asin@),
            decreases repository.books@.len() - i,
        {
            assert(repository@.books.take(i + 1).drop_last() =~= repository@.books.take(i as int));
            assert(repository@.books[i as int] == repository.books@[i as int]@);
            if repository.books[i].series_asin == *asin {
                r.push(copy_book(&repository.books[i]));
                assert(r@.map_values(|b: Book| b@) =~= books_of_series(repository@.books.take(i as int), asin@).push(repository@.books[i as int]));
            }
            i = i + 1;
        }
        assert(repository@.books.take(i as int) =~= repository@.books);
        r
    }

    /// The book with id `asin`, if recorded.
    pub fn fetch_by_asin(repository: &Repository, asin: &String) -> (r: Option<Book>)
        ensures
            match r {
                Some(b) => has_book(repository@, asin@) && b@ == repository@.books[find_book(
                    repository@.books,
                    asin@,
                    0,
                )],
                None => !has_book(repository@, asin@),
            },
    {
        let k = repository.book_index(asin);
        proof {
            lemma_find_book(repository@.books, asin@, 0);
        }
        if k < repository.books.len() {
            assert(repository@.books[k as int] == repository.books@[k as int]@);
            Some(copy_book(&repository.books[k]))
        } else {
            None
        }
    }

    /// Every recorded book, in order of first save.
    pub fn fetch_all(repository: &Repository) -> (r: GetAllBooksResult)
        ensures
            r.books@.map_values(|b: Book| b@) == repository@.books,
    {
        let mut r: Vec<Book> = Vec::new();
        let mut i: usize = 0;
        while i < repository.books.len()
            invariant
                i <= repository.books@.len(),
                r@.map_values(|b: Book| b@) == repository@.books.take(i as int),
            decreases repository.books@.len() - i,
        {
            assert(repository@.books[i as int] == repository.books@[i as int]@);
            let ghost prev = r@;
            r.push(copy_book(&repository.books[i]));
            assert(r@.map_values(|b: Book| b@) =~= prev.map_values(|b: Book| b@).push(repository@.books[i as int]));
            assert(repository@.books.take(i + 1) =~= repository@.books.take(i as int).push(repository@.books[i as int]));
            i = i + 1;
        }
        assert(repository@.books.take(i as int) =~= repository@.books);
        GetAllBooksResult { books: r }
    }

    /// Sets the release date of book `asin` where it is recorded without one;
    /// a date once known is never replaced.
    pub fn update_release_date(repository: &mut Repository, asin: &String, release_date: &String)
        requires
            old(repository).wf(),
        ensures
            final(repository).wf(),
            final(repository)@ == set_release_date(old(repository)@, asin@, release_date@),
    {
        let ghost r = repository@;
        let k = repository.book_index(asin);
        proof {
            lemma_find_book(r.books, asin@, 0);
        }
        if k >= repository.books.len() {
            return;
        }
        assert(r.books[k as int] == repository.books@[k as int]@);
        if repository.books[k].release_date.is_some() {
            return;
        }
        let mut b = copy_book(&repository.books[k]);
        b.release_date = Some(copy_string(release_date));
        repository.books.set(k, b);
        assert(repository@.books =~= r.books.update(k as int, BookView { release_date: Some(release_date@), ..r.books[k as int] }));
        assert(repository@.series =~= r.series);
    }
}


impl Repository {
    /// Tables over `series` and `books`, rows read back from storage; `None`
    /// where a product id occurs twice in either.
    pub fn restore(series: Vec<BookSeries>, books: Vec<Book>) -> (r: Option<Repository>)
        ensures
            match r {
                Some(repo) => repo.wf() && repo@.series == series@.map_values(|s: BookSeries| s@)
                    && repo@.books == books@.map_values(|b: Book| b@),
                None => !repository_wf(
                    RepositoryView {
                        series: series@.map_values(|s: BookSeries| s@),
                        books: books@.map_values(|b: Book| b@),
                    },
                ),
            },
    {
        let ghost ss = series@.map_values(|s: BookSeries| s@);
        let ghost bs = books@.map_values(|b: Book| b@);
        let n = series.len();
        let mut a: usize = 0;
        while a < n
            invariant
                n == series@.len(),
                ss == series@.map_values(|s: BookSeries| s@),
                a <= n,
                forall|x: int, y: int| 0 <= x < a && x < y < n ==> #[trigger] ss[x].asin != #[trigger] ss[y].asin,
            decreases n - a,
        {
            let mut b: usize = a + 1;
            while b < n
                invariant
                    n == series@.len(),
                    ss == series@.map_values(|s: BookSeries| s@),
                    a < n,
                    a + 1 <= b <= n,
                    forall|x: int, y: int| 0 <= x < a && x < y < n ==> #[trigger] ss[x].asin != #[trigger] ss[y].asin,
                    forall|y: int| a < y < b ==> ss[a as int].asin != #[trigger] ss[y].asin,
                decreases n - b,
            {
                assert(ss[a as int] == series@[a as int]@);
                assert(ss[b as int] == series@[b as int]@);
                if series[a].asin == series[b].asin {
                    assert(ss[a as int].asin == ss[b as int].asin);
                    let ghost rv = RepositoryView {
                        series: series@.map_values(|s: BookSeries| s@),
                        books: books@.map_values(|b: Book| b@),
                    };
                    assert(rv.series[a as int].asin == rv.series[b as int].asin);
                    return None;
                }
                b = b + 1;
            }
            a = a + 1;
        }
        let m = books.len();
        let mut a: usize = 0;
        while a < m
            invariant
                m == books@.len(),
                bs == books@.map_values(|b: Book| b@),
                a <= m,
                forall|x: int, y: int| 0 <= x < a && x < y < m ==> #[trigger] bs[x].asin != #[trigger] bs[y].asin,
            decreases m - a,
        {
            let mut b: usize = a + 1;
            while b < m
                invariant
                    m == books@.len(),
                    bs == books@.map_values(|b: Book| b@),
                    a < m,
                    a + 1 <= b <= m,
                    forall|x: int, y: int| 0 <= x < a && x < y < m ==> #[trigger] bs[x].asin != #[trigger] bs[y].asin,
                    forall|y: int| a < y < b ==> bs[a as int].asin != #[trigger] bs[y].asin,
                decreases m - b,
            {
                assert(bs[a as int] == books@[a as int]@);
                assert(bs[b as int] == books@[b as int]@);
                if books[a].asin == books[b].asin {
                    assert(bs[a as int].asin == bs[b as int].asin);
                    return None;
                }
                b = b + 1;
            }
            a = a + 1;
        }
        let repo = Repository { series, books };
        proof {
            assert forall|i: int, j: int|
                0 <= i < ss.len() && 0 <= j < ss.len() && i != j implies #[trigger] ss[i].asin
                != #[trigger] ss[j].asin by {
                if j < i {
                    assert(ss[j].asin != ss[i].asin);
                }
            }
            assert forall|i: int, j: int|
                0 <= i < bs.len() && 0 <= j < bs.len() && i != j implies #[trigger] bs[i].asin
                != #[trigger] bs[j].asin by {
                if j < i {
                    assert(bs[j].asin != bs[i].asin);
                }
            }
        }
        Some(repo)
    }
}

} // verus!

//! Which books each user has read, and the book listing that shows it.
use vstd::prelude::*;
use crate::job::User;
use crate::store::{Book, BookView, Repository, copy_book, has_book};
use crate::subscriptions::SubscriptionTable;

verus! {

/// `username` has read book `book_asin`, on `read_date` where it is known.
pub struct ReadState {
    pub username: String,
    pub book_asin: String,
    pub read_date: Option<String>,
}

pub struct ReadView {
    pub username: Seq<char>,
    pub book_asin: Seq<char>,
    pub read_date: Option<Seq<char>>,
}

impl View for ReadState {
    type V = ReadView;

    open spec fn view(&self) -> ReadView {
        ReadView {
            username: self.username@,
            book_asin: self.book_asin@,
            read_date: match self.read_date {
                Some(d) => Some(d@),
                None => None,
            },
        }
    }
}

/// The books read, in order of marking.
pub struct ReadTable {
    rows: Vec<ReadState>,
}

impl View for ReadTable {
    type V = Seq<ReadView>;

    closed spec fn view(&self) -> Seq<ReadView> {
        self.rows@.map_values(|r: ReadState| r@)
    }
}

/// A book as one user sees it: whether they read it, and when.
pub struct BookWithReadState {
    pub book: Book,
    pub read: bool,
    pub read_date: Option<String>,
}

/// The books of the series a user follows.
pub struct GetUserBooksResult {
    pub books: Vec<BookWithReadState>,
}

/// Index of the first row at or after `i` saying `user` read `asin`, or the
/// number of rows.
pub open spec fn find_read(rows: Seq<ReadView>, user: Seq<char>, asin: Seq<char>, i: int) -> int
    decreases rows.len() - i,
{
    if i < 0 || i >= rows.len() {
        rows.len() as int
    } else if rows[i].username == user && rows[i].book_asin == asin {
        i
    } else {
        find_read(rows, user, asin, i + 1)
    }
}

/// The rows other than those saying `user` read `asin`, in order.
pub open spec fn reads_without(rows: Seq<ReadView>, user: Seq<char>, asin: Seq<char>) -> Seq<ReadView>
    decreases rows.len(),
{
    if rows.len() == 0 {
        rows
    } else if rows.last().username == user && rows.last().book_asin == asin {
        reads_without(rows.drop_last(), user, asin)
    } else {
        reads_without(rows.drop_last(), user, asin).push(rows.last())
    }
}

/// The rows, with the date of those saying `user` read `asin` set to `date`.
pub open spec fn reads_dated(rows: Seq<ReadView>, user: Seq<char>, asin: Seq<char>, date: Seq<char>) -> Seq<ReadView> {
    Seq::new(
        rows.len(),
        |i: int|
            if rows[i].username == user && rows[i].book_asin == asin {
                ReadView { read_date: Some(date), ..rows[i] }
            } else {
                rows[i]
            },
    )
}

/// The listing entry of book `b` for `user`: the book, whether they read it, and when.
pub open spec fn read_entry(rows: Seq<ReadView>, user: Seq<char>, b: BookView) -> (BookView, bool, Option<Seq<char>>) {
    let k = find_read(rows, user, b.asin, 0);
    if k < rows.len() {
        (b, true, rows[k].read_date)
    } else {
        (b, false, None)
    }
}

/// The listing of `books` for `user`: the books of the series they follow, in order.
pub open spec fn books_for_user(
    books: Seq<BookView>,
    subs: Seq<(Seq<char>, Seq<char>)>,
    reads: Seq<ReadView>,
    user: Seq<char>,
) -> Seq<(BookView, bool, Option<Seq<char>>)>
    decreases books.len(),
{
    if books.len() == 0 {
        Seq::empty()
    } else if subs.contains((user, books.last().series_asin)) {
        books_for_user(books.drop_last(), subs, reads, user).push(read_entry(reads, user, books.last()))
    } else {
        books_for_user(books.drop_last(), subs, reads, user)
    }
}

pub open spec fn entry_view(e: BookWithReadState) -> (BookView, bool, Option<Seq<char>>) {
    (
        e.book@,
        e.read,
        match e.read_date {
            Some(d) => Some(d@),
            None => None,
        },
    )
}

proof fn lemma_find_read(rows: Seq<ReadView>, user: Seq<char>, asin: Seq<char>, i: int)
    requires
        0 <= i <= rows.len(),
    ensures
        i <= find_read(rows, user, asin, i) <= rows.len(),
    decreases rows.len() - i,
{
    if i < rows.len() && !(rows[i].username == user && rows[i].book_asin == asin) {
        lemma_find_read(rows, user, asin, i + 1);
    }
}

fn copy_read(r: &ReadState) -> (c: ReadState)
    ensures
        c == *r,
{
    ReadState {
        username: r.username.clone(),
        book_asin: r.book_asin.clone(),
        read_date: match &r.read_date {
            Some(d) => Some(d.clone()),
            None => None,
        },
    }
}

impl ReadTable {
    /// No book read.
    pub fn new() -> (r: ReadTable)
        ensures
            r@.len() == 0,
    {
        let r = ReadTable { rows: Vec::new() };
        assert(r@ =~= Seq::<ReadView>::empty());
        r
    }

    /// A table over `rows`, read back from storage.
    pub fn from_rows(rows: Vec<ReadState>) -> (r: ReadTable)
        ensures
            r@ == rows@.map_values(|x: ReadState| x@),
    {
        ReadTable { rows }
    }

    /// Every row, in order.
    pub fn rows(&self) -> (r: Vec<ReadState>)
        ensures
            r@.map_values(|x: ReadState| x@) == self@,
    {
        let mut r: Vec<ReadState> = Vec::new();
        let mut i: usize = 0;
        while i < self.rows.len()
            invariant
                i <= self.rows@.len(),
                r@.map_values(|x: ReadState| x@) == self@.take(i as int),
            decreases self.rows@.len() - i,
        {
            assert(self@[i as int] == self.rows@[i as int]@);
            let ghost prev = r@;
            r.push(copy_read(&self.rows[i]));
            assert(r@.map_values(|x: ReadState| x@) =~= prev.map_values(|x: ReadState| x@).push(self@[i as int]));
            assert(self@.take(i + 1) =~= self@.take(i as int).push(self@[i as int]));
            i = i + 1;
        }
        assert(self@.take(i as int) =~= self@);
        r
    }

    fn find(&self, username: &String, book_asin: &String) -> (r: usize)
        ensures
            r as int == find_read(self@, username@, book_asin@, 0),
    {
        let mut i: usize = 0;
        while i < self.rows.len()
            invariant
                i <= self.rows@.len(),
                find_read(self@, username@, book_asin@, 0) == find_read(self@, username@, book_asin@, i as int),
            decreases self.rows@.len() - i,
        {
            assert(self@[i as int] == self.rows@[i as int]@);
            if self.rows[i].username == *username && self.rows[i].book_asin == *book_asin {
                return i;
            }
            i = i + 1;
        }
        i
    }
}

impl ReadState {
    /// `user` has read `book_asin`, date unknown; nothing changes where this is recorded already.
    pub fn add(table: &mut ReadTable, user: &User, book_asin: &String)
        ensures
            find_read(old(table)@, user.username@, book_asin@, 0) < old(table)@.len() ==> final(table)@
                == old(table)@,
            find_read(old(table)@, user.username@, book_asin@, 0) >= old(table)@.len() ==> final(table)@
                == old(table)@.push(ReadView { username: user.username@, book_asin: book_asin@, read_date: None }),
    {
        let k = table.find(&user.username, book_asin);
        if k < table.rows.len() {
            return;
        }
        let ghost prev = table.rows@;
        table.rows.push(ReadState { username: user.username.clone(), book_asin: book_asin.clone(), read_date: None });
        assert(table@ =~= prev.map_values(|x: ReadState| x@).push(ReadView { username: user.username@, book_asin: book_asin@, read_date: None }));
    }

    /// `user` has not read `book_asin`.
    pub fn remove(table: &mut ReadTable, user: &User, book_asin: &String)
        ensures
            final(table)@ == reads_without(old(table)@, user.username@, book_asin@),
    {
        let ghost t = table@;
        let mut rows: Vec<ReadState> = Vec::new();
        let mut i: usize = 0;
        while i < table.rows.len()
            invariant
                i <= table.rows@.len(),
                table@ == t,
                rows@.map_values(|x: ReadState| x@) == reads_without(t.take(i as int), user.username@, book_asin@),
            decreases table.rows@.len() - i,
        {
            assert(t.take(i + 1).drop_last() =~= t.take(i as int));
            assert(t[i as int] == table.rows@[i as int]@);
            if !(table.rows[i].username == user.username && table.rows[i].book_asin == *book_asin) {
                let ghost prev = rows@;
                rows.push(copy_read(&table.rows[i]));
                assert(rows@.map_values(|x: ReadState| x@) =~= prev.map_values(|x: ReadState| x@).push(t[i as int]));
            }
            i = i + 1;
        }
        assert(t.take(i as int) =~= t);
        table.rows = rows;
    }

    /// `user` read `book_asin` on `read_date`, where the reading is recorded.
    pub fn update(table: &mut ReadTable, user: &User, book_asin: &String, read_date: &String)
        ensures
            final(table)@ == reads_dated(old(table)@, user.username@, book_asin@, read_date@),
    {
        let ghost t = table@;
        let mut rows: Vec<ReadState> = Vec::new();
        let mut i: usize = 0;
        while i < table.rows.len()
            invariant
                i <= table.rows@.len(),
                table@ == t,
                rows@.map_values(|x: ReadState| x@) == reads_dated(t, user.username@, book_asin@, read_date@).take(i as int),
            decreases table.rows@.len() - i,
        {
            assert(t[i as int] == table.rows@[i as int]@);
            let mut row = copy_read(&table.rows[i]);
            if row.username == user.username && row.book_asin == *book_asin {
                row.read_date = Some(read_date.clone());
            }
            let ghost prev = rows@;
            rows.push(row);
            assert(rows@.map_values(|x: ReadState| x@) =~= prev.map_values(|x: ReadState| x@).push(reads_dated(t, user.username@, book_asin@, read_date@)[i as int]));
            assert(reads_dated(t, user.username@, book_asin@, read_date@).take(i + 1) =~= reads_dated(t, user.username@, book_asin@, read_date@).take(i as int).push(reads_dated(t, user.username@, book_asin@, read_date@)[i as int]));
            i = i + 1;
        }
        assert(reads_dated(t, user.username@, book_asin@, read_date@).take(i as int) =~= reads_dated(t, user.username@, book_asin@, read_date@));
        table.rows = rows;
    }
}

/// Whether chrono reads `s` as a calendar date in format `fmt`.
pub uninterp spec fn parses_as_date(s: Seq<char>, fmt: Seq<char>) -> bool;

/// Relies on `chrono::NaiveDate::parse_from_str`: whether `s` is a valid
/// calendar date written in format `fmt`; the answer depends on the two
/// texts alone.
#[verifier::external_body]
fn date_parses(s: &str, fmt: &str) -> (r: bool)
    ensures
        r == parses_as_date(s@, fmt@),
{
    chrono::NaiveDate::parse_from_str(s, fmt).is_ok()
}

/// Whether `date` is a calendar date written `YYYY-MM-DD`, as a reading date must be.
pub fn is_valid_date(date: &str) -> (r: bool)
    ensures
        r == parses_as_date(date@, "%Y-%m-%d"@),
{
    date_parses(date, "%Y-%m-%d")
}

/// Why a reading could not be recorded.
#[derive(PartialEq, Eq, Structural, Clone, Copy, Debug)]
pub enum MarkError {
    /// The date is not written `YYYY-MM-DD`, or names no day.
    BadDate,
    /// No book has that id.
    NoSuchBook,
}

/// Records that `user` read book `asin`, which must be recorded.
pub fn mark_read(repository: &Repository, reads: &mut ReadTable, user: &User, asin: &String) -> (r: Result<(), MarkError>)
    ensures
        !has_book(repository@, asin@) ==> r == Err::<(), MarkError>(MarkError::NoSuchBook) && final(reads)@ == old(reads)@,
        has_book(repository@, asin@) ==> r is Ok && (find_read(old(reads)@, user.username@, asin@, 0) < old(reads)@.len() ==> final(reads)@
                == old(reads)@) && (find_read(old(reads)@, user.username@, asin@, 0) >= old(reads)@.len() ==> final(reads)@
                == old(reads)@.push(ReadView { username: user.username@, book_asin: asin@, read_date: None })),
{
    if Book::fetch_by_asin(repository, asin).is_none() {
        return Err(MarkError::NoSuchBook);
    }
    ReadState::add(reads, user, asin);
    Ok(())
}

/// Records that `user` has not read book `asin`, which must be recorded.
pub fn mark_unread(repository: &Repository, reads: &mut ReadTable, user: &User, asin: &String) -> (r: Result<(), MarkError>)
    ensures
        !has_book(repository@, asin@) ==> r == Err::<(), MarkError>(MarkError::NoSuchBook) && final(reads)@ == old(reads)@,
        has_book(repository@, asin@) ==> r is Ok && final(reads)@ == reads_without(old(reads)@, user.username@, asin@),
{
    if Book::fetch_by_asin(repository, asin).is_none() {
        return Err(MarkError::NoSuchBook);
    }
    ReadState::remove(reads, user, asin);
    Ok(())
}

/// Records the date on which `user` read book `asin`: the date is checked
/// first, then that the book is recorded.
pub fn mark_read_on_date(repository: &Repository, reads: &mut ReadTable, user: &User, asin: &String, date: &String) -> (r:
    Result<(), MarkError>)
    ensures
        !parses_as_date(date@, "%Y-%m-%d"@) ==> r == Err::<(), MarkError>(MarkError::BadDate) && final(reads)@ == old(reads)@,
        parses_as_date(date@, "%Y-%m-%d"@) && !has_book(repository@, asin@) ==> r == Err::<(), MarkError>(MarkError::NoSuchBook)
            && final(reads)@ == old(reads)@,
        parses_as_date(date@, "%Y-%m-%d"@) && has_book(repository@, asin@) ==> r is Ok && final(reads)@ == reads_dated(
            old(reads)@,
            user.username@,
            asin@,
            date@,
        ),
{
    if !is_valid_date(date.as_str()) {
        return Err(MarkError::BadDate);
    }
    if Book::fetch_by_asin(repository, asin).is_none() {
        return Err(MarkError::NoSuchBook);
    }
    ReadState::update(reads, user, asin, date);
    Ok(())
}

impl Book {
    /// The books of the series that `user` follows, in order of first save,
    /// each with whether they read it and when.
    pub fn fetch_by_user(repository: &Repository, subscriptions: &SubscriptionTable, reads: &ReadTable, user: &User) -> (r:
        GetUserBooksResult)
        ensures
            r.books@.map_values(|e: BookWithReadState| entry_view(e)) == books_for_user(
                repository@.books,
                subscriptions@,
                reads@,
                user.username@,
            ),
    {
        let all = Book::fetch_all(repository).books;
        let ghost bs = repository@.books;
        let mut out: Vec<BookWithReadState> = Vec::new();
        let mut i: usize = 0;
        while i < all.len()
            invariant
                i <= all@.len(),
                bs == repository@.books,
                all@.map_values(|b: Book| b@) == bs,
                out@.map_values(|e: BookWithReadState| entry_view(e)) == books_for_user(bs.take(i as int), subscriptions@, reads@, user.username@),
            decreases all@.len() - i,
        {
            assert(bs.take(i + 1).drop_last() =~= bs.take(i as int));
            assert(bs[i as int] == all@[i as int]@);
            let b = &all[i];
            let k = subscriptions.index_of(&user.username, &b.series_asin);
            if k < subscriptions.len() {
                let j = reads.find(&user.username, &b.asin);
                proof {
                    lemma_find_read(reads@, user.username@, b.asin@, 0);
                }
                let entry = if j < reads.rows.len() {
                    assert(reads@[j as int] == reads.rows@[j as int]@);
                    BookWithReadState {
                        book: copy_book(b),
                        read: true,
                        read_date: match &reads.rows[j].read_date {
                            Some(d) => Some(d.clone()),
                            None => None,
                        },
                    }
                } else {
                    BookWithReadState { book: copy_book(b), read: false, read_date: None }
                };
                let ghost prev = out@;
                out.push(entry);
                assert(out@.map_values(|e: BookWithReadState| entry_view(e)) =~= prev.map_values(|e: BookWithReadState| entry_view(e)).push(read_entry(reads@, user.username@, bs[i as int])));
            }
            i = i + 1;
        }
        assert(bs.take(i as int) =~= bs);
        GetUserBooksResult { books: out }
    }
}

} // verus!

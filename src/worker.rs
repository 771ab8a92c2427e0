//! The worker's decisions: which job runs next, and what its outcome does to
//! the tables.
//!
//! Fetching pages is the caller's part. The worker takes the next job
//! (`take_next`), the caller loads the page that the job's payload names and
//! hands over what it read (`Fetched`), and the worker records the records
//! and finishes the job (`complete`). Every method takes `&mut self`, so one
//! job at most is between `take_next` and `complete` through one server: the
//! exclusive borrow is the processing gate.
use vstd::prelude::*;
use crate::extract::{BookPage, ScrapeSeriesPageResult, SeriesPage, extract_error_text, page_books,
    release_date_of, scrape_book_page, scrape_series_page};
use crate::job::{Job, JobQueue, JobStatus, JobView, QueueError, QueueView, User, enqueue, find_id,
    find_status, finish, is_outstanding, lemma_enqueue_wf, lemma_find_id, lemma_find_queued,
    lemma_find_status, lemma_find_later, next_job, queue_error_text, queue_wf, start,
    find_queued, find_later, now};
use crate::params::{JobParams, book_params_text, params_string, series_params_text};
use crate::store::{Book, BookView, Repository, RepositoryView, SeriesView, books_of_series,
    save_book, save_series, set_release_date, has_book, has_series};
use crate::text::sanitized;

verus! {

/// What the caller read for a job.
#[allow(inconsistent_fields)]
pub enum Fetched {
    /// The job's stored payload could not be read back (an older version
    /// wrote it); no page was loaded.
    Unreadable,
    /// The landing page of series `asin`, or the text of the error that
    /// loading it met.
    Series { asin: String, page: Result<SeriesPage, String> },
    /// The product page of book `asin`, asked for by job `parent`, or the
    /// text of the error that loading it met.
    Book { asin: String, parent: i32, page: Result<BookPage, String> },
}

/// The text with which a job whose payload could not be read fails.
pub open spec fn unreadable_text() -> Seq<char> {
    "Could not deserialize job params, version mismatch."@
}

/// The series that `f` is about, if any.
pub open spec fn series_asin_of(f: Fetched) -> Seq<char> {
    match f {
        Fetched::Series { asin, .. } => asin@,
        _ => Seq::empty(),
    }
}

/// Saving `books` one after the other.
pub open spec fn save_books(r: RepositoryView, books: Seq<BookView>) -> RepositoryView
    decreases books.len(),
{
    if books.len() == 0 {
        r
    } else {
        save_book(save_books(r, books.drop_last()), books.last())
    }
}

/// Enqueuing, for each of `books` without a release date, a book job with
/// parent `parent`, in order; stops at the first refusal.
pub open spec fn cascade(
    q: QueueView,
    books: Seq<BookView>,
    parent: i32,
    user: Option<Seq<char>>,
    t: i64,
) -> (QueueView, Result<(), QueueError>)
    decreases books.len(),
{
    if books.len() == 0 {
        (q, Ok(()))
    } else {
        let (q0, r0) = cascade(q, books.drop_last(), parent, user, t);
        if r0 is Err || books.last().release_date is Some {
            (q0, r0)
        } else {
            let (q1, r1) = enqueue(q0, book_params_text(books.last().asin, parent), user, t);
            (
                q1,
                match r1 {
                    Ok(_) => Ok(()),
                    Err(e) => Err(e),
                },
            )
        }
    }
}

/// What a job's outcome does before the job is finished: the queue (with
/// any cascaded book jobs), the tables, and the error text it fails with,
/// if it fails.
pub open spec fn outcome(q: QueueView, r: RepositoryView, job: JobView, fetched: Fetched, t: i64) -> (
    QueueView,
    RepositoryView,
    Option<Seq<char>>,
) {
    match fetched {
        Fetched::Unreadable => (q, r, Some(unreadable_text())),
        Fetched::Series { asin, page } => match page {
            Err(msg) => (q, r, Some(msg@)),
            Ok(p) => match page_books(p.books@, asin@, t) {
                Err(x) => (q, r, Some(extract_error_text(x))),
                Ok(bs) => {
                    let r1 = save_books(
                        save_series(
                            r,
                            SeriesView { asin: asin@, name: sanitized(p.name_html@), time_first_seen: t },
                        ),
                        bs,
                    );
                    let (q1, c) = cascade(q, books_of_series(r1.books, asin@), job.id, job.username, t);
                    match c {
                        Ok(()) => (q1, r1, None),
                        Err(e) => (q1, r1, Some(queue_error_text(e))),
                    }
                },
            },
        },
        Fetched::Book { asin, page, .. } => match page {
            Err(msg) => (q, r, Some(msg@)),
            Ok(p) => match release_date_of(p) {
                Err(x) => (q, r, Some(extract_error_text(x))),
                Ok(d) => (q, set_release_date(r, asin@, d), None),
            },
        },
    }
}

/// Payload `text` is queued.
pub open spec fn is_queued(rows: Seq<JobView>, text: Seq<char>) -> bool {
    exists|k: int| 0 <= k < rows.len() && #[trigger] rows[k].status == JobStatus::Queued && rows[k].params == text
}

/// Exactly one job is queued with payload `text`.
pub open spec fn queued_once(rows: Seq<JobView>, text: Seq<char>) -> bool {
    exists|k: int|
        0 <= k < rows.len() && #[trigger] rows[k].status == JobStatus::Queued && rows[k].params == text
            && forall|j: int|
            0 <= j < rows.len() && #[trigger] rows[j].status == JobStatus::Queued && rows[j].params
                == text ==> j == k
}

proof fn lemma_queued_once(q: QueueView, text: Seq<char>)
    requires
        crate::job::queued_unique(q.rows),
        is_queued(q.rows, text),
    ensures
        queued_once(q.rows, text),
{
    let rows = q.rows;
    let k = choose|k: int| 0 <= k < rows.len() && #[trigger] rows[k].status == JobStatus::Queued && rows[k].params == text;
    assert forall|j: int|
        0 <= j < rows.len() && #[trigger] rows[j].status == JobStatus::Queued && rows[j].params
            == text implies j == k by {
        if j != k {
            assert(rows[j].params != rows[k].params);
        }
    }
}

proof fn lemma_enqueue_queued(q: QueueView, text: Seq<char>, user: Option<Seq<char>>, t: i64, x: Seq<char>)
    requires
        is_queued(q.rows, x) || (x == text && enqueue(q, text, user, t).1 is Ok),
    ensures
        is_queued(enqueue(q, text, user, t).0.rows, x),
{
    lemma_find_queued(q.rows, text, 0);
    lemma_find_later(q.rows, t, 0);
    let k = find_queued(q.rows, text, 0);
    if k >= q.rows.len() && q.next_id <= i32::MAX {
        let pos = find_later(q.rows, t, 0);
        let rows2 = enqueue(q, text, user, t).0.rows;
        if is_queued(q.rows, x) {
            let m = choose|m: int| 0 <= m < q.rows.len() && #[trigger] q.rows[m].status == JobStatus::Queued && q.rows[m].params == x;
            let m2 = if m < pos { m } else { m + 1 };
            assert(rows2[m2] == q.rows[m]);
        } else {
            assert(rows2[pos].status == JobStatus::Queued);
        }
    }
}

proof fn lemma_cascade(q: QueueView, books: Seq<BookView>, parent: i32, user: Option<Seq<char>>, t: i64, x: Seq<char>)
    requires
        queue_wf(q),
    ensures
        queue_wf(cascade(q, books, parent, user, t).0),
        is_queued(q.rows, x) ==> is_queued(cascade(q, books, parent, user, t).0.rows, x),
        cascade(q, books, parent, user, t).1 is Ok ==> forall|i: int|
            0 <= i < books.len() && (#[trigger] books[i]).release_date is None ==> is_queued(
                cascade(q, books, parent, user, t).0.rows,
                book_params_text(books[i].asin, parent),
            ),
    decreases books.len(),
{
    if books.len() > 0 {
        let d = books.drop_last();
        lemma_cascade(q, d, parent, user, t, x);
        let (q0, r0) = cascade(q, d, parent, user, t);
        if !(r0 is Err || books.last().release_date is Some) {
            let text = book_params_text(books.last().asin, parent);
            lemma_enqueue_wf(q0, text, user, t);
            if is_queued(q.rows, x) {
                lemma_enqueue_queued(q0, text, user, t, x);
            }
            if r0 is Ok && enqueue(q0, text, user, t).1 is Ok {
                assert forall|i: int|
                    0 <= i < books.len() && (#[trigger] books[i]).release_date is None implies is_queued(
                    cascade(q, books, parent, user, t).0.rows,
                    book_params_text(books[i].asin, parent),
                ) by {
                    if i < books.len() - 1 {
                        assert(books[i] == d[i]);
                        assert(is_queued(q0.rows, book_params_text(books[i].asin, parent)));
                        lemma_enqueue_queued(q0, text, user, t, book_params_text(books[i].asin, parent));
                        lemma_cascade(q, d, parent, user, t, book_params_text(books[i].asin, parent));
                    } else {
                        lemma_enqueue_queued(q0, text, user, t, text);
                    }
                }
            }
        } else if r0 is Ok {
            assert forall|i: int|
                0 <= i < books.len() && (#[trigger] books[i]).release_date is None implies is_queued(
                cascade(q, books, parent, user, t).0.rows,
                book_params_text(books[i].asin, parent),
            ) by {
                assert(books[i] == d[i]);
            }
        }
    }
}

proof fn lemma_finish_keeps_queued(q: QueueView, id: i32, t: i64, errors: Option<Seq<char>>, x: Seq<char>)
    requires
        finish(q, id, t, errors) is Ok,
        is_queued(q.rows, x),
    ensures
        is_queued(finish(q, id, t, errors).unwrap().rows, x),
{
    lemma_find_id(q.rows, id, 0);
    let m = choose|m: int| 0 <= m < q.rows.len() && #[trigger] q.rows[m].status == JobStatus::Queued && q.rows[m].params == x;
    assert(finish(q, id, t, errors).unwrap().rows[m] == q.rows[m]);
}

proof fn lemma_books_of_series_has(rows: Seq<BookView>, asin: Seq<char>, k: int)
    requires
        0 <= k < rows.len(),
        rows[k].series_asin == asin,
    ensures
        exists|i: int| 0 <= i < books_of_series(rows, asin).len() && #[trigger] books_of_series(rows, asin)[i] == rows[k],
    decreases rows.len(),
{
    let d = rows.drop_last();
    if k < rows.len() - 1 {
        lemma_books_of_series_has(d, asin, k);
        let i = choose|i: int| 0 <= i < books_of_series(d, asin).len() && #[trigger] books_of_series(d, asin)[i] == d[k];
        assert(books_of_series(rows, asin)[i] == rows[k]);
    } else {
        assert(books_of_series(rows, asin)[books_of_series(rows, asin).len() - 1] == rows[k]);
    }
}

/// Taking the next job at `t` turned queue `q0` into `q1` and handed out `r`:
/// nothing where no job is outstanding, else the next job, marked as being
/// processed.
pub open spec fn took_next(q0: QueueView, q1: QueueView, r: Option<Job>, t: i64) -> bool {
    match next_job(q0.rows) {
        None => r is None && q1 == q0,
        Some(v) => r matches Some(j) && start(q0, v.id, t) matches Ok(q) && q1 == q && j@ == q.rows[find_id(
            q0.rows,
            v.id,
            0,
        )],
    }
}

/// What a successful series job `parent` for series `asin` leaves behind,
/// for a queue whose next id was `next_id` before: every book of the series
/// still without a release date has exactly one book job queued with
/// `parent` as parent, and every job added since is such a book job (so no
/// book with a known date got one).
pub open spec fn series_job_done(next_id: int, q: QueueView, r: RepositoryView, asin: Seq<char>, parent: i32) -> bool {
    let bs = books_of_series(r.books, asin);
    &&& forall|k: int|
        0 <= k < r.books.len() && #[trigger] r.books[k].series_asin == asin && r.books[k].release_date
            is None ==> queued_once(q.rows, book_params_text(r.books[k].asin, parent))
    &&& forall|k: int|
        0 <= k < q.rows.len() && #[trigger] q.rows[k].id >= next_id ==> exists|i: int|
            0 <= i < bs.len() && (#[trigger] bs[i]).release_date is None && q.rows[k].params
                == book_params_text(bs[i].asin, parent)
}

/// The stored payload that the work `f` belongs to, where it names one.
pub open spec fn fetched_params(f: Fetched) -> Option<Seq<char>> {
    match f {
        Fetched::Unreadable => None,
        Fetched::Series { asin, .. } => Some(series_params_text(asin@)),
        Fetched::Book { asin, parent, .. } => Some(book_params_text(asin@, parent)),
    }
}

/// The text with which a job fails whose payload is not the work fetched for it.
pub open spec fn mismatch_text() -> Seq<char> {
    "The fetched page does not belong to the job."@
}

/// `outcome`, once the work fetched is checked to be the job's own.
pub open spec fn checked_outcome(q: QueueView, r: RepositoryView, job: JobView, fetched: Fetched, t: i64) -> (
    QueueView,
    RepositoryView,
    Option<Seq<char>>,
) {
    match fetched_params(fetched) {
        Some(p) if p != job.params => (q, r, Some(mismatch_text())),
        _ => outcome(q, r, job, fetched, t),
    }
}

/// Completing job `j0` at `t` with `fetched` on queue `q0` and tables `r0`
/// gave `r`, queue `q1`, tables `r1` and handle `j1`.
pub open spec fn completed(
    q0: QueueView,
    r0: RepositoryView,
    j0: Job,
    fetched: Fetched,
    t: i64,
    r: Result<(), QueueError>,
    q1: QueueView,
    r1: RepositoryView,
    j1: Job,
) -> bool {
    let (q, rr, errors) = checked_outcome(q0, r0, j0@, fetched, t);
    &&& r1 == rr
    &&& crate::job::applied(finish(q, j0.id, t, errors), q, j0, r, q1, j1)
}

fn mismatch_message() -> (r: String)
    ensures
        r@ == mismatch_text(),
{
    let mut m: Vec<char> = Vec::new();
    crate::params::push_str(&mut m, "The fetched page does not belong to the job.");
    crate::text::string_of(m.as_slice())
}

/// The worker: the job queue and the tables it fills.
pub struct JobServer {
    pub queue: JobQueue,
    pub repository: Repository,
}

impl JobServer {
    pub open spec fn wf(&self) -> bool {
        self.queue.wf() && self.repository.wf()
    }

    /// A worker over an empty queue and empty tables.
    pub fn new() -> (r: JobServer)
        ensures
            r.wf(),
            r.queue@.rows.len() == 0,
            r.repository@.series.len() == 0,
            r.repository@.books.len() == 0,
    {
        JobServer { queue: JobQueue::new(), repository: Repository::new() }
    }

    /// A worker over the given queue and tables.
    pub fn init(queue: JobQueue, repository: Repository) -> (r: JobServer)
        requires
            queue.wf(),
            repository.wf(),
        ensures
            r.wf(),
            r.queue == queue,
            r.repository == repository,
    {
        JobServer { queue, repository }
    }

    /// Takes the next job (see `next_job`) and marks it as being processed
    /// from `time` on; `None` when no job is outstanding.
    pub fn take_next_at(&mut self, time: i64) -> (r: Option<Job>)
        requires
            old(self).wf(),
        ensures
            final(self).wf(),
            final(self).repository == old(self).repository,
            took_next(old(self).queue@, final(self).queue@, r, time),
    {
        let ghost q = self.queue@;
        proof {
            self.queue.lemma_wf();
        }
        let mut job = match Job::fetch_next(&self.queue) {
            Some(j) => j,
            None => return None,
        };
        proof {
            let rows = q.rows;
            lemma_find_status(rows, JobStatus::Processing, 0);
            lemma_find_status(rows, JobStatus::Queued, 0);
            let p = find_status(rows, JobStatus::Processing, 0);
            let k = if p < rows.len() { p } else { find_status(rows, JobStatus::Queued, 0) };
            assert(rows[k] == job@);
            crate::job::lemma_find_id_unique(rows, k);
            assert(find_id(rows, job.id, 0) == k);
            assert(is_outstanding(rows[k]));
        }
        match job.mark_as_processing_at(&mut self.queue, time) {
            Ok(()) => Some(job),
            Err(_) => None,
        }
    }

    /// Takes the next job and marks it as being processed from now on; see
    /// `take_next_at`.
    pub fn take_next(&mut self) -> (r: Option<Job>)
        requires
            old(self).wf(),
        ensures
            final(self).wf(),
            final(self).repository == old(self).repository,
            next_job(old(self).queue@.rows) is None <==> r is None,
            exists|t: i64| #[trigger] took_next(old(self).queue@, final(self).queue@, r, t),
    {
        let time = now();
        self.take_next_at(time)
    }

    fn save_all_books(&mut self, books: &Vec<Book>)
        requires
            old(self).wf(),
        ensures
            final(self).wf(),
            final(self).queue == old(self).queue,
            final(self).repository@ == save_books(old(self).repository@, books@.map_values(|b: Book| b@)),
    {
        let ghost r = self.repository@;
        let ghost bs = books@.map_values(|b: Book| b@);
        let mut i: usize = 0;
        while i < books.len()
            invariant
                i <= books@.len(),
                self.wf(),
                self.queue == old(self).queue,
                bs == books@.map_values(|b: Book| b@),
                self.repository@ == save_books(r, bs.take(i as int)),
            decreases books@.len() - i,
        {
            assert(bs.take(i + 1).drop_last() =~= bs.take(i as int));
            books[i].save(&mut self.repository);
            i = i + 1;
        }
        assert(bs.take(i as int) =~= bs);
    }

    fn enqueue_missing_dates(&mut self, books: &Vec<Book>, parent: i32, user: Option<&User>, time: i64) -> (r: Result<(), QueueError>)
        requires
            old(self).wf(),
        ensures
            final(self).wf(),
            final(self).repository == old(self).repository,
            (final(self).queue@, r) == cascade(old(self).queue@, books@.map_values(|b: Book| b@), parent, crate::job::user_name(user), time),
    {
        let ghost q = self.queue@;
        let ghost bs = books@.map_values(|b: Book| b@);
        let mut i: usize = 0;
        while i < books.len()
            invariant
                i <= books@.len(),
                self.wf(),
                self.repository == old(self).repository,
                q == old(self).queue@,
                bs == books@.map_values(|b: Book| b@),
                (self.queue@, Ok::<(), QueueError>(())) == cascade(q, bs.take(i as int), parent, crate::job::user_name(user), time),
            decreases books@.len() - i,
        {
            assert(bs.take(i + 1).drop_last() =~= bs.take(i as int));
            assert(bs[i as int] == books@[i as int]@);
            if books[i].release_date.is_none() {
                let params = JobParams::Book { asin: books[i].asin.clone(), parent };
                match Job::add_at(&mut self.queue, &params, user, time) {
                    Ok(_) => {},
                    Err(e) => {
                        proof {
                            let ghost q0 = cascade(q, bs.take(i as int), parent, crate::job::user_name(user), time).0;
                            assert(self.queue@ == q0);
                            assert(bs.take(i + 1).last() == bs[i as int]);
                            assert(cascade(q, bs.take(i + 1), parent, crate::job::user_name(user), time).1 is Err);
                            lemma_cascade_prefix_err(q, bs, parent, crate::job::user_name(user), time, i + 1);
                        }
                        return Err(e);
                    },
                }
            }
            i = i + 1;
        }
        assert(bs.take(i as int) =~= bs);
        Ok(())
    }

    fn save_records(&mut self, res: &ScrapeSeriesPageResult)
        requires
            old(self).wf(),
        ensures
            final(self).wf(),
            final(self).queue == old(self).queue,
            final(self).repository@ == save_books(save_series(old(self).repository@, res.series@), res.books@.map_values(|b: Book| b@)),
    {
        res.series.save(&mut self.repository);
        self.save_all_books(&res.books);
    }

    #[verifier::spinoff_prover]
    #[verifier::rlimit(100)]
    fn cascade_and_finish(&mut self, job: &mut Job, asin: &String, time: i64) -> (r: Result<(), QueueError>)
        requires
            old(self).wf(),
        ensures
            final(self).wf(),
            final(self).repository == old(self).repository,
            ({
                let (q1, c) = cascade(old(self).queue@, books_of_series(old(self).repository@.books, asin@), old(job).id, old(job)@.username, time);
                let errors = match c {
                    Ok(()) => None,
                    Err(e) => Some(queue_error_text(e)),
                };
                match (r, finish(q1, old(job).id, time, errors)) {
                    (Ok(()), Ok(q2)) => final(self).queue@ == q2 && final(job)@ == q2.rows[find_id(q1.rows, old(job).id, 0)],
                    (Err(e), Err(f)) => e == f && final(self).queue@ == q1 && *final(job) == *old(job),
                    _ => false,
                }
            }),
            r is Ok && final(job).status == JobStatus::Successful ==> series_job_done(
                old(self).queue@.next_id,
                final(self).queue@,
                final(self).repository@,
                asin@,
                old(job).id,
            ),
    {
        let ghost q = self.queue@;
        let ghost j0 = job@;
        let books = Book::fetch_by_series_asin(&self.repository, asin);
        let user = match &job.username {
            Some(u) => Some(User { username: u.clone() }),
            None => None,
        };
        let user_ref = user.as_ref();
        assert(crate::job::user_name(user_ref) == j0.username);
        let c = self.enqueue_missing_dates(&books, job.id, user_ref, time);
        let ghost q1 = self.queue@;
        match c {
            Ok(()) => {
                let r = job.mark_as_successful_at(&mut self.queue, time);
                proof {
                    if r is Ok {
                        lemma_cascade_queued_once(&old(self).queue, &self.queue, q1, books@.map_values(|b: Book| b@), j0.id, j0.username, time, self.repository@, asin@);
                    }
                }
                r
            },
            Err(e) => {
                let r = job.mark_as_failed_at(&mut self.queue, e.message(), time);
                proof {
                    lemma_find_id(q1.rows, j0.id, 0);
                }
                r
            },
        }
    }

    fn record_series(&mut self, job: &mut Job, asin: &String, res: ScrapeSeriesPageResult, time: i64) -> (r: Result<(), QueueError>)
        requires
            old(self).wf(),
        ensures
            final(self).wf(),
            ({
                let r1 = save_books(save_series(old(self).repository@, res.series@), res.books@.map_values(|b: Book| b@));
                let (q1, c) = cascade(old(self).queue@, books_of_series(r1.books, asin@), old(job).id, old(job)@.username, time);
                let errors = match c {
                    Ok(()) => None,
                    Err(e) => Some(queue_error_text(e)),
                };
                &&& final(self).repository@ == r1
                &&& match (r, finish(q1, old(job).id, time, errors)) {
                    (Ok(()), Ok(q2)) => final(self).queue@ == q2 && final(job)@ == q2.rows[find_id(q1.rows, old(job).id, 0)],
                    (Err(e), Err(f)) => e == f && final(self).queue@ == q1 && *final(job) == *old(job),
                    _ => false,
                }
            }),
            r is Ok && final(job).status == JobStatus::Successful ==> series_job_done(
                old(self).queue@.next_id,
                final(self).queue@,
                final(self).repository@,
                asin@,
                old(job).id,
            ),
    {
        self.save_records(&res);
        self.cascade_and_finish(job, asin, time)
    }

    #[verifier::rlimit(50)]
    fn complete_series(&mut self, job: &mut Job, asin: String, page: Result<SeriesPage, String>, time: i64) -> (r: Result<(), QueueError>)
        requires
            old(self).wf(),
        ensures
            final(self).wf(),
            ({
                let (q1, r1, errors) = outcome(old(self).queue@, old(self).repository@, old(job)@, Fetched::Series { asin, page }, time);
                &&& final(self).repository@ == r1
                &&& match (r, finish(q1, old(job).id, time, errors)) {
                    (Ok(()), Ok(q2)) => final(self).queue@ == q2 && final(job)@ == q2.rows[find_id(q1.rows, old(job).id, 0)],
                    (Err(e), Err(f)) => e == f && final(self).queue@ == q1 && *final(job) == *old(job),
                    _ => false,
                }
            }),
            r is Ok && final(job).status == JobStatus::Successful ==> series_job_done(
                old(self).queue@.next_id,
                final(self).queue@,
                final(self).repository@,
                asin@,
                old(job).id,
            ),
    {
        let ghost q = self.queue@;
        match page {
            Err(msg) => {
                let r = job.mark_as_failed_at(&mut self.queue, msg, time);
                proof {
                    lemma_find_id(q.rows, old(job).id, 0);
                }
                r
            },
            Ok(p) => match scrape_series_page(&p, &asin, time) {
                Err(x) => {
                    let r = job.mark_as_failed_at(&mut self.queue, x.message(), time);
                    proof {
                        lemma_find_id(q.rows, old(job).id, 0);
                    }
                    r
                },
                Ok(res) => self.record_series(job, &asin, res, time),
            },
        }
    }

    /// Records the outcome of `job`, being processed, and finishes it at
    /// `time`: the records that the page gives are saved (upsert-if-absent),
    /// a series job enqueues a book job (with this job as parent) for each
    /// book of the series still without a release date, and the job ends
    /// successful, or failed with the text of the first error met. Only a
    /// refusal of the queue to finish the job comes back as an error.
    pub fn complete_at(&mut self, job: &mut Job, fetched: Fetched, time: i64) -> (r: Result<(), QueueError>)
        requires
            old(self).wf(),
        ensures
            final(self).wf(),
            completed(
                old(self).queue@,
                old(self).repository@,
                *old(job),
                fetched,
                time,
                r,
                final(self).queue@,
                final(self).repository@,
                *final(job),
            ),
            fetched is Series && r is Ok && final(job).status == JobStatus::Successful ==> series_job_done(
                old(self).queue@.next_id,
                final(self).queue@,
                final(self).repository@,
                series_asin_of(fetched),
                old(job).id,
            ),
    {
        match fetched {
            Fetched::Unreadable => {
                let mut m: Vec<char> = Vec::new();
                crate::params::push_str(&mut m, "Could not deserialize job params, version mismatch.");
                job.mark_as_failed_at(&mut self.queue, crate::text::string_of(m.as_slice()), time)
            },
            Fetched::Series { asin, page } => {
                let expected = params_string(&JobParams::Series { asin: asin.clone() });
                if job.params != expected {
                    let r = job.mark_as_failed_at(&mut self.queue, mismatch_message(), time);
                    proof {
                        lemma_find_id(old(self).queue@.rows, old(job).id, 0);
                    }
                    return r;
                }
                self.complete_series(job, asin, page, time)
            },
            Fetched::Book { asin, parent, page } => {
                let expected = params_string(&JobParams::Book { asin: asin.clone(), parent });
                if job.params != expected {
                    let r = job.mark_as_failed_at(&mut self.queue, mismatch_message(), time);
                    proof {
                        lemma_find_id(old(self).queue@.rows, old(job).id, 0);
                    }
                    return r;
                }
                self.complete_book(job, asin, page, time)
            },
        }
    }

    fn complete_book(&mut self, job: &mut Job, asin: String, page: Result<BookPage, String>, time: i64) -> (r: Result<(), QueueError>)
        requires
            old(self).wf(),
        ensures
            final(self).wf(),
            ({
                let (q1, r1, errors) = outcome(old(self).queue@, old(self).repository@, old(job)@, Fetched::Book { asin, parent: 0, page }, time);
                &&& final(self).repository@ == r1
                &&& crate::job::applied(finish(q1, old(job).id, time, errors), q1, *old(job), r, final(self).queue@, *final(job))
            }),
    {
        match page {
            Err(msg) => job.mark_as_failed_at(&mut self.queue, msg, time),
            Ok(p) => match scrape_book_page(&p) {
                Err(x) => job.mark_as_failed_at(&mut self.queue, x.message(), time),
                Ok(res) => {
                    Book::update_release_date(&mut self.repository, &asin, &res.release_date);
                    job.mark_as_successful_at(&mut self.queue, time)
                },
            },
        }
    }

    /// Records the outcome of `job` and finishes it now; see `complete_at`.
    pub fn complete(&mut self, job: &mut Job, fetched: Fetched) -> (r: Result<(), QueueError>)
        requires
            old(self).wf(),
        ensures
            final(self).wf(),
            exists|t: i64|
                #[trigger] completed(
                    old(self).queue@,
                    old(self).repository@,
                    *old(job),
                    fetched,
                    t,
                    r,
                    final(self).queue@,
                    final(self).repository@,
                    *final(job),
                ),
            fetched is Series && r is Ok && final(job).status == JobStatus::Successful ==> series_job_done(
                old(self).queue@.next_id,
                final(self).queue@,
                final(self).repository@,
                series_asin_of(fetched),
                old(job).id,
            ),
    {
        let time = now();
        let ghost f = fetched;
        let r = self.complete_at(job, fetched, time);
        assert(completed(old(self).queue@, old(self).repository@, *old(job), f, time, r, self.queue@, self.repository@, *job));
        r
    }
}

proof fn lemma_series_books_queued(q1: QueueView, id: i32, t: i64, fr: RepositoryView, asin: Seq<char>, bs: Seq<BookView>)
    requires
        queue_wf(finish(q1, id, t, None).unwrap()),
        finish(q1, id, t, None) is Ok,
        bs == books_of_series(fr.books, asin),
        forall|i: int|
            0 <= i < bs.len() && (#[trigger] bs[i]).release_date is None ==> is_queued(
                q1.rows,
                book_params_text(bs[i].asin, id),
            ),
    ensures
        forall|k: int| 0 <= k < fr.books.len() && #[trigger] fr.books[k].series_asin == asin
            && fr.books[k].release_date is None ==> queued_once(finish(q1, id, t, None).unwrap().rows, book_params_text(fr.books[k].asin, id)),
{
    let q2 = finish(q1, id, t, None).unwrap();
    assert forall|k: int| 0 <= k < fr.books.len() && #[trigger] fr.books[k].series_asin == asin
        && fr.books[k].release_date is None implies queued_once(q2.rows, book_params_text(fr.books[k].asin, id)) by {
        lemma_books_of_series_has(fr.books, asin, k);
        let i = choose|i: int| 0 <= i < books_of_series(fr.books, asin).len() && #[trigger] books_of_series(fr.books, asin)[i] == fr.books[k];
        assert(bs[i] == fr.books[k]);
        lemma_finish_keeps_queued(q1, id, t, None, book_params_text(fr.books[k].asin, id));
        lemma_queued_once(q2, book_params_text(fr.books[k].asin, id));
    }
}

proof fn lemma_cascade_queued_once(
    q0: &JobQueue,
    qf: &JobQueue,
    q1: QueueView,
    bs: Seq<BookView>,
    id: i32,
    user: Option<Seq<char>>,
    t: i64,
    fr: RepositoryView,
    asin: Seq<char>,
)
    requires
        q0.wf(),
        qf.wf(),
        q1 == cascade(q0@, bs, id, user, t).0,
        cascade(q0@, bs, id, user, t).1 is Ok,
        finish(q1, id, t, None) == Ok::<QueueView, QueueError>(qf@),
        bs == books_of_series(fr.books, asin),
    ensures
        series_job_done(q0@.next_id, qf@, fr, asin, id),
{
    q0.lemma_wf();
    qf.lemma_wf();
    lemma_cascade(q0@, bs, id, user, t, Seq::empty());
    lemma_series_books_queued(q1, id, t, fr, asin, bs);
    lemma_cascade_new_rows(q0@, bs, id, user, t);
    lemma_find_id(q1.rows, id, 0);
    assert forall|k: int| 0 <= k < qf@.rows.len() && #[trigger] qf@.rows[k].id >= q0@.next_id implies exists|i: int|
        0 <= i < bs.len() && (#[trigger] bs[i]).release_date is None && qf@.rows[k].params
            == book_params_text(bs[i].asin, id) by {
        assert(qf@.rows[k].id == q1.rows[k].id);
        assert(qf@.rows[k].params == q1.rows[k].params);
    }
}

/// Every job that a cascade adds is a book job for one of `bs` without a
/// release date.
proof fn lemma_cascade_new_rows(q: QueueView, bs: Seq<BookView>, parent: i32, user: Option<Seq<char>>, t: i64)
    requires
        queue_wf(q),
    ensures
        cascade(q, bs, parent, user, t).0.next_id >= q.next_id,
        forall|k: int|
            0 <= k < cascade(q, bs, parent, user, t).0.rows.len()
                && #[trigger] cascade(q, bs, parent, user, t).0.rows[k].id >= q.next_id ==> exists|i: int|
                0 <= i < bs.len() && (#[trigger] bs[i]).release_date is None
                    && cascade(q, bs, parent, user, t).0.rows[k].params == book_params_text(bs[i].asin, parent),
    decreases bs.len(),
{
    if bs.len() > 0 {
        let d = bs.drop_last();
        lemma_cascade_new_rows(q, d, parent, user, t);
        lemma_cascade(q, d, parent, user, t, Seq::empty());
        let (q0, r0) = cascade(q, d, parent, user, t);
        let q1 = cascade(q, bs, parent, user, t).0;
        if !(r0 is Err || bs.last().release_date is Some) {
            let text = book_params_text(bs.last().asin, parent);
            lemma_find_queued(q0.rows, text, 0);
            lemma_find_later(q0.rows, t, 0);
            let k0 = find_queued(q0.rows, text, 0);
            let pos = find_later(q0.rows, t, 0);
            let fresh = k0 >= q0.rows.len() && q0.next_id <= i32::MAX;
            assert forall|k: int|
                0 <= k < q1.rows.len() && #[trigger] q1.rows[k].id >= q.next_id implies exists|i: int|
                0 <= i < bs.len() && (#[trigger] bs[i]).release_date is None && q1.rows[k].params
                    == book_params_text(bs[i].asin, parent) by {
                if fresh && k == pos {
                    assert(bs[bs.len() - 1].release_date is None);
                } else {
                    let kk = if fresh && k > pos { k - 1 } else { k };
                    assert(q1.rows[k] == q0.rows[kk]);
                    let i = choose|i: int| 0 <= i < d.len() && (#[trigger] d[i]).release_date is None
                        && q0.rows[kk].params == book_params_text(d[i].asin, parent);
                    assert(bs[i] == d[i]);
                }
            }
        } else {
            assert forall|k: int|
                0 <= k < q1.rows.len() && #[trigger] q1.rows[k].id >= q.next_id implies exists|i: int|
                0 <= i < bs.len() && (#[trigger] bs[i]).release_date is None && q1.rows[k].params
                    == book_params_text(bs[i].asin, parent) by {
                let i = choose|i: int| 0 <= i < d.len() && (#[trigger] d[i]).release_date is None
                    && q0.rows[k].params == book_params_text(d[i].asin, parent);
                assert(bs[i] == d[i]);
            }
        }
    }
}

/// After a series page is recorded, the series is in the tables and so is
/// every book the page listed (new ones as scraped, known ones as they were).
pub proof fn law_series_records_present(r: RepositoryView, s: SeriesView, bs: Seq<BookView>)
    ensures
        has_series(save_books(save_series(r, s), bs), s.asin),
        forall|i: int| 0 <= i < bs.len() ==> has_book(save_books(save_series(r, s), bs), #[trigger] bs[i].asin),
    decreases bs.len(),
{
    let r0 = save_series(r, s);
    if !has_series(r, s.asin) {
        assert(r0.series[r0.series.len() - 1].asin == s.asin);
    }
    lemma_save_books_keeps(r0, bs, s.asin);
}

proof fn lemma_save_books_keeps(r: RepositoryView, bs: Seq<BookView>, asin: Seq<char>)
    requires
        has_series(r, asin),
    ensures
        has_series(save_books(r, bs), asin),
        forall|i: int| 0 <= i < bs.len() ==> has_book(save_books(r, bs), #[trigger] bs[i].asin),
        forall|a: Seq<char>| has_book(r, a) ==> has_book(save_books(r, bs), a),
    decreases bs.len(),
{
    if bs.len() > 0 {
        let d = bs.drop_last();
        lemma_save_books_keeps(r, d, asin);
        let r0 = save_books(r, d);
        let r1 = save_book(r0, bs.last());
        assert forall|a: Seq<char>| has_book(r0, a) implies has_book(r1, a) by {
            if !has_book(r0, bs.last().asin) {
                let k = choose|k: int| 0 <= k < r0.books.len() && #[trigger] r0.books[k].asin == a;
                assert(r1.books[k] == r0.books[k]);
            }
        }
        if !has_book(r0, bs.last().asin) {
            assert(r1.books[r1.books.len() - 1].asin == bs.last().asin);
        }
        assert forall|i: int| 0 <= i < bs.len() implies has_book(r1, #[trigger] bs[i].asin) by {
            if i < bs.len() - 1 {
                assert(bs[i] == d[i]);
            }
        }
        if !has_book(r0, bs.last().asin) {
            let k = choose|k: int| 0 <= k < r0.series.len() && #[trigger] r0.series[k].asin == asin;
            assert(r1.series[k] == r0.series[k]);
        }
    }
}

/// Job `id` is being processed.
pub open spec fn is_processing(q: QueueView, id: i32) -> bool {
    exists|k: int| 0 <= k < q.rows.len() && #[trigger] q.rows[k].id == id && q.rows[k].status == JobStatus::Processing
}

proof fn lemma_cascade_keeps_processing(q: QueueView, bs: Seq<BookView>, parent: i32, user: Option<Seq<char>>, t: i64, id: i32)
    requires
        queue_wf(q),
        is_processing(q, id),
    ensures
        is_processing(cascade(q, bs, parent, user, t).0, id),
    decreases bs.len(),
{
    if bs.len() > 0 {
        let d = bs.drop_last();
        lemma_cascade_keeps_processing(q, d, parent, user, t, id);
        lemma_cascade(q, d, parent, user, t, Seq::empty());
        let (q0, r0) = cascade(q, d, parent, user, t);
        if !(r0 is Err || bs.last().release_date is Some) {
            let text = book_params_text(bs.last().asin, parent);
            lemma_find_queued(q0.rows, text, 0);
            lemma_find_later(q0.rows, t, 0);
            let k0 = find_queued(q0.rows, text, 0);
            if k0 >= q0.rows.len() && q0.next_id <= i32::MAX {
                let pos = find_later(q0.rows, t, 0);
                let q1 = cascade(q, bs, parent, user, t).0;
                let m = choose|m: int| 0 <= m < q0.rows.len() && #[trigger] q0.rows[m].id == id && q0.rows[m].status == JobStatus::Processing;
                let m2 = if m < pos { m } else { m + 1 };
                assert(q1.rows[m2] == q0.rows[m]);
            }
        }
    }
}

/// Finishing a job keeps the table's invariant.
pub proof fn lemma_finish_wf(q: QueueView, id: i32, t: i64, e: Option<Seq<char>>)
    requires
        queue_wf(q),
        finish(q, id, t, e) is Ok,
    ensures
        queue_wf(finish(q, id, t, e).unwrap()),
{
    lemma_find_id(q.rows, id, 0);
    let k = find_id(q.rows, id, 0);
    let rows2 = finish(q, id, t, e).unwrap().rows;
    assert forall|i: int, j: int|
        0 <= i < rows2.len() && 0 <= j < rows2.len() && #[trigger] rows2[i].status
            == JobStatus::Processing && #[trigger] rows2[j].status == JobStatus::Processing implies i
        == j by {
        assert(rows2[i] == q.rows[i]);
        assert(rows2[j] == q.rows[j]);
    }
    assert forall|i: int, j: int|
        0 <= i < rows2.len() && 0 <= j < rows2.len() && i != j && #[trigger] rows2[i].status
            == JobStatus::Queued && #[trigger] rows2[j].status == JobStatus::Queued implies rows2[i].params
        != rows2[j].params by {
        assert(rows2[i] == q.rows[i]);
        assert(rows2[j] == q.rows[j]);
    }
    assert forall|i: int, j: int|
        0 <= i < rows2.len() && 0 <= j < rows2.len() && i != j implies #[trigger] rows2[i].id
        != #[trigger] rows2[j].id by {
        assert(rows2[i].id == q.rows[i].id);
        assert(rows2[j].id == q.rows[j].id);
    }
    assert forall|i: int, j: int|
        0 <= i <= j < rows2.len() implies #[trigger] rows2[i].time_created
        <= #[trigger] rows2[j].time_created by {
        assert(rows2[i].time_created == q.rows[i].time_created);
        assert(rows2[j].time_created == q.rows[j].time_created);
    }
    assert forall|i: int| 0 <= i < rows2.len() implies 1 <= #[trigger] rows2[i].id < q.next_id by {
        assert(rows2[i].id == q.rows[i].id);
    }
}

/// A series job whose page lists books that all read well, run to its end:
/// the series is recorded, so is every listed book (by id), and where the
/// queue took the cascaded book jobs the job ends successful, with exactly
/// one book job queued for each book of the series without a release date
/// and no other job added.
pub proof fn law_series_job_end_to_end(
    q: QueueView,
    r: RepositoryView,
    job: JobView,
    asin: String,
    page: SeriesPage,
    t: i64,
)
    requires
        queue_wf(q),
        is_processing(q, job.id),
        job.params == series_params_text(asin@),
        page_books(page.books@, asin@, t) is Ok,
    ensures
        ({
            let f = Fetched::Series { asin, page: Ok(page) };
            let (q1, r1, e) = checked_outcome(q, r, job, f, t);
            let bs = page_books(page.books@, asin@, t).unwrap();
            &&& has_series(r1, asin@)
            &&& forall|i: int| 0 <= i < bs.len() ==> has_book(r1, #[trigger] bs[i].asin)
            &&& e is None ==> finish(q1, job.id, t, None) is Ok && series_job_done(
                q.next_id,
                finish(q1, job.id, t, None).unwrap(),
                r1,
                asin@,
                job.id,
            )
        }),
{
    let bs = page_books(page.books@, asin@, t).unwrap();
    let s = SeriesView { asin: asin@, name: sanitized(page.name_html@), time_first_seen: t };
    law_series_records_present(r, s, bs);
    let r1 = save_books(save_series(r, s), bs);
    let dbs = books_of_series(r1.books, asin@);
    let (q1, c) = cascade(q, dbs, job.id, job.username, t);
    if c is Ok {
        lemma_cascade(q, dbs, job.id, job.username, t, Seq::empty());
        lemma_cascade_keeps_processing(q, dbs, job.id, job.username, t, job.id);
        let m = choose|m: int| 0 <= m < q1.rows.len() && #[trigger] q1.rows[m].id == job.id && q1.rows[m].status == JobStatus::Processing;
        crate::job::lemma_find_id_unique(q1.rows, m);
        lemma_finish_wf(q1, job.id, t, None);
        let qf = finish(q1, job.id, t, None).unwrap();
        lemma_series_books_queued(q1, job.id, t, r1, asin@, dbs);
        lemma_cascade_new_rows(q, dbs, job.id, job.username, t);
        assert forall|k: int| 0 <= k < qf.rows.len() && #[trigger] qf.rows[k].id >= q.next_id implies exists|i: int|
            0 <= i < dbs.len() && (#[trigger] dbs[i]).release_date is None && qf.rows[k].params
                == book_params_text(dbs[i].asin, job.id) by {
            assert(qf.rows[k].id == q1.rows[k].id);
            assert(qf.rows[k].params == q1.rows[k].params);
        }
    }
}

proof fn lemma_cascade_prefix_err(q: QueueView, bs: Seq<BookView>, parent: i32, user: Option<Seq<char>>, t: i64, n: int)
    requires
        0 <= n <= bs.len(),
        cascade(q, bs.take(n), parent, user, t).1 is Err,
    ensures
        cascade(q, bs, parent, user, t) == cascade(q, bs.take(n), parent, user, t),
    decreases bs.len() - n,
{
    if n < bs.len() {
        assert(bs.take(n + 1).drop_last() =~= bs.take(n));
        lemma_cascade_prefix_err(q, bs, parent, user, t, n + 1);
    } else {
        assert(bs.take(n) =~= bs);
    }
}

} // verus!

//! The durable queue of scrape jobs and its state machine.
//!
//! The queue is the table of all jobs ever enqueued, kept in order of
//! creation time (jobs created at the same time in the order they came).
//! A job goes `Queued -> Processing -> {Successful, Failed}`; the last two are
//! final. A job found `Processing` (its worker stopped midway) is handed out
//! again before any queued one.
use vstd::prelude::*;
use crate::params::{JobParams, params_string, params_text};
use vstd::pervasive::VecAdditionalExecFns;

verus! {

/// Who asked for a job.
pub struct User {
    pub username: String,
}

/// Where a job stands.
#[derive(PartialEq, Eq, Structural, Clone, Copy, Debug)]
pub enum JobStatus {
    Queued,
    Processing,
    Successful,
    Failed,
}

impl JobStatus {
    /// The status as the job table writes it.
    pub fn as_str(&self) -> (r: &'static str)
        ensures
            *self == JobStatus::Queued ==> r@ == "QUEUED"@,
            *self == JobStatus::Processing ==> r@ == "PROCESSING"@,
            *self == JobStatus::Successful ==> r@ == "SUCCESSFUL"@,
            *self == JobStatus::Failed ==> r@ == "FAILED"@,
    {
        match self {
            JobStatus::Queued => "QUEUED",
            JobStatus::Processing => "PROCESSING",
            JobStatus::Successful => "SUCCESSFUL",
            JobStatus::Failed => "FAILED",
        }
    }
}

/// One unit of scrape work, as the job table holds it. `params` is the
/// stored text of its work (see `params_text`), read back only when the job
/// runs, so that a text written by an older version fails that one job.
pub struct Job {
    pub id: i32,
    pub params: String,
    pub status: JobStatus,
    pub errors: Option<String>,
    pub username: Option<String>,
    pub time_created: i64,
    pub time_started: Option<i64>,
    pub time_finished: Option<i64>,
}

/// All jobs, newest first.
pub struct GetAllJobsResult {
    pub jobs: Vec<Job>,
}

/// A job as a mathematical value.
pub struct JobView {
    pub id: i32,
    pub params: Seq<char>,
    pub status: JobStatus,
    pub errors: Option<Seq<char>>,
    pub username: Option<Seq<char>>,
    pub time_created: i64,
    pub time_started: Option<i64>,
    pub time_finished: Option<i64>,
}

pub open spec fn opt_view(o: Option<String>) -> Option<Seq<char>> {
    match o {
        Some(s) => Some(s@),
        None => None,
    }
}

impl View for Job {
    type V = JobView;

    open spec fn view(&self) -> JobView {
        JobView {
            id: self.id,
            params: self.params@,
            status: self.status,
            errors: opt_view(self.errors),
            username: opt_view(self.username),
            time_created: self.time_created,
            time_started: self.time_started,
            time_finished: self.time_finished,
        }
    }
}

/// Why the queue refused a request.
#[derive(PartialEq, Eq, Structural, Clone, Copy, Debug)]
pub enum QueueError {
    /// Every job id has been given out.
    IdsExhausted,
    /// No job has that id.
    NoSuchJob,
    /// The job is finished; a finished job never changes again.
    AlreadyFinished,
    /// Another job is being processed; only one may be at any time.
    Busy,
    /// The job is not being processed, so it cannot be finished.
    NotProcessing,
}

/// The text with which a failed job records `e`.
pub open spec fn queue_error_text(e: QueueError) -> Seq<char> {
    match e {
        QueueError::IdsExhausted => "No job id is left"@,
        QueueError::NoSuchJob => "No job has this id"@,
        QueueError::AlreadyFinished => "The job is finished"@,
        QueueError::Busy => "Another job is being processed"@,
        QueueError::NotProcessing => "The job is not being processed"@,
    }
}

impl QueueError {
    /// A sentence that says what went wrong.
    pub fn message(&self) -> (r: String)
        ensures
            r@ == queue_error_text(*self),
    {
        let mut out: Vec<char> = Vec::new();
        match self {
            QueueError::IdsExhausted => crate::params::push_str(&mut out, "No job id is left"),
            QueueError::NoSuchJob => crate::params::push_str(&mut out, "No job has this id"),
            QueueError::AlreadyFinished => crate::params::push_str(&mut out, "The job is finished"),
            QueueError::Busy => crate::params::push_str(&mut out, "Another job is being processed"),
            QueueError::NotProcessing => crate::params::push_str(
                &mut out,
                "The job is not being processed",
            ),
        }
        assert(out@ =~= queue_error_text(*self));
        crate::text::string_of(out.as_slice())
    }
}

/// The jobs, in order of creation time, and the id the next job gets.
pub struct JobQueue {
    jobs: Vec<Job>,
    next_id: i64,
}

/// The queue as a mathematical value.
pub struct QueueView {
    pub rows: Seq<JobView>,
    pub next_id: int,
}

pub open spec fn is_outstanding(j: JobView) -> bool {
    j.status == JobStatus::Queued || j.status == JobStatus::Processing
}

/// A payload is queued at most once.
pub open spec fn queued_unique(rows: Seq<JobView>) -> bool {
    forall|i: int, j: int|
        0 <= i < rows.len() && 0 <= j < rows.len() && i != j && #[trigger] rows[i].status
            == JobStatus::Queued && #[trigger] rows[j].status == JobStatus::Queued
            ==> rows[i].params != rows[j].params
}

/// The invariant of the job table.
pub open spec fn queue_wf(q: QueueView) -> bool {
    let rows = q.rows;
    &&& 1 <= q.next_id <= i32::MAX + 1
    &&& forall|i: int| 0 <= i < rows.len() ==> 1 <= #[trigger] rows[i].id < q.next_id
    &&& forall|i: int, j: int|
        0 <= i < rows.len() && 0 <= j < rows.len() && i != j ==> #[trigger] rows[i].id
            != #[trigger] rows[j].id
    &&& forall|i: int, j: int|
        0 <= i <= j < rows.len() ==> #[trigger] rows[i].time_created
            <= #[trigger] rows[j].time_created
    &&& queued_unique(rows)
    // one job at most is being processed
    &&& forall|i: int, j: int|
        0 <= i < rows.len() && 0 <= j < rows.len() && #[trigger] rows[i].status
            == JobStatus::Processing && #[trigger] rows[j].status == JobStatus::Processing
            ==> i == j
}

/// Index of the first row at or after `i` that is queued with payload `text`,
/// or the number of rows.
pub open spec fn find_queued(rows: Seq<JobView>, text: Seq<char>, i: int) -> int
    decreases rows.len() - i,
{
    if i < 0 || i >= rows.len() {
        rows.len() as int
    } else if rows[i].status == JobStatus::Queued && rows[i].params == text {
        i
    } else {
        find_queued(rows, text, i + 1)
    }
}

/// Index of the first row at or after `i` with status `st`, or the number of rows.
pub open spec fn find_status(rows: Seq<JobView>, st: JobStatus, i: int) -> int
    decreases rows.len() - i,
{
    if i < 0 || i >= rows.len() {
        rows.len() as int
    } else if rows[i].status == st {
        i
    } else {
        find_status(rows, st, i + 1)
    }
}

/// Index of the first row at or after `i` with id `id`, or the number of rows.
pub open spec fn find_id(rows: Seq<JobView>, id: i32, i: int) -> int
    decreases rows.len() - i,
{
    if i < 0 || i >= rows.len() {
        rows.len() as int
    } else if rows[i].id == id {
        i
    } else {
        find_id(rows, id, i + 1)
    }
}

/// Index of the first row at or after `i` created after `t`, or the number of rows.
pub open spec fn find_later(rows: Seq<JobView>, t: i64, i: int) -> int
    decreases rows.len() - i,
{
    if i < 0 || i >= rows.len() {
        rows.len() as int
    } else if rows[i].time_created > t {
        i
    } else {
        find_later(rows, t, i + 1)
    }
}

/// A job just enqueued.
pub open spec fn new_job(id: i32, text: Seq<char>, user: Option<Seq<char>>, t: i64) -> JobView {
    JobView {
        id,
        params: text,
        status: JobStatus::Queued,
        errors: None,
        username: user,
        time_created: t,
        time_started: None,
        time_finished: None,
    }
}

/// Enqueuing payload `text` for `user` at time `t`: where the payload is
/// already queued, that job's id and the queue unchanged; otherwise a new
/// queued job with the next id, placed after every job created up to `t`.
pub open spec fn enqueue(q: QueueView, text: Seq<char>, user: Option<Seq<char>>, t: i64) -> (
    QueueView,
    Result<i32, QueueError>,
) {
    let k = find_queued(q.rows, text, 0);
    if k < q.rows.len() {
        (q, Ok(q.rows[k].id))
    } else if q.next_id > i32::MAX {
        (q, Err(QueueError::IdsExhausted))
    } else {
        let id = q.next_id as i32;
        (
            QueueView {
                rows: q.rows.insert(find_later(q.rows, t, 0), new_job(id, text, user, t)),
                next_id: q.next_id + 1,
            },
            Ok(id),
        )
    }
}

/// The job that the worker takes next: the one being processed, if any
/// (it was interrupted), else the oldest queued one.
pub open spec fn next_job(rows: Seq<JobView>) -> Option<JobView> {
    let p = find_status(rows, JobStatus::Processing, 0);
    let k = find_status(rows, JobStatus::Queued, 0);
    if p < rows.len() {
        Some(rows[p])
    } else if k < rows.len() {
        Some(rows[k])
    } else {
        None
    }
}

/// Marking job `id` as being processed at time `t`. The start time is that of
/// the first time it was.
pub open spec fn start(q: QueueView, id: i32, t: i64) -> Result<QueueView, QueueError> {
    let k = find_id(q.rows, id, 0);
    let p = find_status(q.rows, JobStatus::Processing, 0);
    if k >= q.rows.len() {
        Err(QueueError::NoSuchJob)
    } else if !is_outstanding(q.rows[k]) {
        Err(QueueError::AlreadyFinished)
    } else if p < q.rows.len() && p != k {
        Err(QueueError::Busy)
    } else {
        let j = q.rows[k];
        Ok(
            QueueView {
                rows: q.rows.update(
                    k,
                    JobView {
                        status: JobStatus::Processing,
                        time_started: if j.time_started is Some {
                            j.time_started
                        } else {
                            Some(t)
                        },
                        ..j
                    },
                ),
                next_id: q.next_id,
            },
        )
    }
}

/// Marking job `id`, which is being processed, as finished at time `t`:
/// successful where `errors` is `None`, failed with that text otherwise.
pub open spec fn finish(q: QueueView, id: i32, t: i64, errors: Option<Seq<char>>) -> Result<
    QueueView,
    QueueError,
> {
    let k = find_id(q.rows, id, 0);
    if k >= q.rows.len() {
        Err(QueueError::NoSuchJob)
    } else if q.rows[k].status != JobStatus::Processing {
        Err(QueueError::NotProcessing)
    } else {
        let j = q.rows[k];
        Ok(
            QueueView {
                rows: q.rows.update(
                    k,
                    JobView {
                        status: if errors is Some {
                            JobStatus::Failed
                        } else {
                            JobStatus::Successful
                        },
                        time_finished: Some(t),
                        errors: if errors is Some {
                            errors
                        } else {
                            j.errors
                        },
                        ..j
                    },
                ),
                next_id: q.next_id,
            },
        )
    }
}

/// A transition whose outcome on the table `q0` is `want` was applied to the
/// table (now `q1`) and to the handle (`j0`, now `j1`): on success both hold
/// the updated row; on refusal, with the same error, neither changed.
pub open spec fn applied(
    want: Result<QueueView, QueueError>,
    q0: QueueView,
    j0: Job,
    r: Result<(), QueueError>,
    q1: QueueView,
    j1: Job,
) -> bool {
    match (r, want) {
        (Ok(()), Ok(q)) => q1 == q && j1@ == q.rows[find_id(q0.rows, j0.id, 0)],
        (Err(e), Err(f)) => e == f && q1 == q0 && j1 == j0,
        _ => false,
    }
}

pub open spec fn user_name(user: Option<&User>) -> Option<Seq<char>> {
    match user {
        Some(u) => Some(u.username@),
        None => None,
    }
}

impl View for JobQueue {
    type V = QueueView;

    closed spec fn view(&self) -> QueueView {
        QueueView { rows: self.jobs@.map_values(|j: Job| j@), next_id: self.next_id as int }
    }
}

pub proof fn lemma_find_queued(rows: Seq<JobView>, text: Seq<char>, i: int)
    requires
        0 <= i <= rows.len(),
    ensures
        i <= find_queued(rows, text, i) <= rows.len(),
        find_queued(rows, text, i) < rows.len() ==> rows[find_queued(rows, text, i)].status
            == JobStatus::Queued && rows[find_queued(rows, text, i)].params == text,
        forall|k: int|
            i <= k < find_queued(rows, text, i) ==> !(#[trigger] rows[k].status
                == JobStatus::Queued && rows[k].params == text),
    decreases rows.len() - i,
{
    if i < rows.len() && !(rows[i].status == JobStatus::Queued && rows[i].params == text) {
        lemma_find_queued(rows, text, i + 1);
    }
}

pub proof fn lemma_find_status(rows: Seq<JobView>, st: JobStatus, i: int)
    requires
        0 <= i <= rows.len(),
    ensures
        i <= find_status(rows, st, i) <= rows.len(),
        find_status(rows, st, i) < rows.len() ==> rows[find_status(rows, st, i)].status == st,
        forall|k: int| i <= k < find_status(rows, st, i) ==> #[trigger] rows[k].status != st,
    decreases rows.len() - i,
{
    if i < rows.len() && rows[i].status != st {
        lemma_find_status(rows, st, i + 1);
    }
}

pub proof fn lemma_find_id(rows: Seq<JobView>, id: i32, i: int)
    requires
        0 <= i <= rows.len(),
    ensures
        i <= find_id(rows, id, i) <= rows.len(),
        find_id(rows, id, i) < rows.len() ==> rows[find_id(rows, id, i)].id == id,
        forall|k: int| i <= k < find_id(rows, id, i) ==> #[trigger] rows[k].id != id,
    decreases rows.len() - i,
{
    if i < rows.len() && rows[i].id != id {
        lemma_find_id(rows, id, i + 1);
    }
}

pub proof fn lemma_find_later(rows: Seq<JobView>, t: i64, i: int)
    requires
        0 <= i <= rows.len(),
    ensures
        i <= find_later(rows, t, i) <= rows.len(),
        find_later(rows, t, i) < rows.len() ==> rows[find_later(rows, t, i)].time_created > t,
        forall|k: int| i <= k < find_later(rows, t, i) ==> #[trigger] rows[k].time_created <= t,
    decreases rows.len() - i,
{
    if i < rows.len() && rows[i].time_created <= t {
        lemma_find_later(rows, t, i + 1);
    }
}

/// An exact copy of `j`.
fn copy_job(j: &Job) -> (r: Job)
    ensures
        r == *j,
{
    Job {
        id: j.id,
        params: j.params.clone(),
        status: j.status,
        errors: match &j.errors {
            Some(e) => Some(e.clone()),
            None => None,
        },
        username: match &j.username {
            Some(u) => Some(u.clone()),
            None => None,
        },
        time_created: j.time_created,
        time_started: j.time_started,
        time_finished: j.time_finished,
    }
}

impl JobQueue {
    /// The table's invariant holds (see `queue_wf`).
    pub closed spec fn wf(&self) -> bool {
        queue_wf(self@)
    }

    pub proof fn lemma_wf(&self)
        ensures
            self.wf() == queue_wf(self@),
    {
    }

    /// An empty queue.
    pub fn new() -> (r: JobQueue)
        ensures
            r.wf(),
            r@.rows.len() == 0,
            r@.next_id == 1,
    {
        let r = JobQueue { jobs: Vec::new(), next_id: 1 };
        assert(r@.rows =~= Seq::<JobView>::empty());
        r
    }

    /// Number of jobs in the table.
    pub fn len(&self) -> (r: usize)
        ensures
            r == self@.rows.len(),
    {
        self.jobs.len()
    }

    /// The job at position `i` in order of creation.
    pub fn get(&self, i: usize) -> (r: &Job)
        requires
            i < self@.rows.len(),
        ensures
            r@ == self@.rows[i as int],
    {
        &self.jobs[i]
    }

    fn find_queued_index(&self, text: &String) -> (r: usize)
        ensures
            r as int == find_queued(self@.rows, text@, 0),
    {
        let mut i: usize = 0;
        while i < self.jobs.len()
            invariant
                i <= self.jobs@.len(),
                find_queued(self@.rows, text@, 0) == find_queued(self@.rows, text@, i as int),
            decreases self.jobs@.len() - i,
        {
            let j = &self.jobs[i];
            assert(self@.rows[i as int] == j@);
            if j.status == JobStatus::Queued && j.params == *text {
                return i;
            }
            i = i + 1;
        }
        i
    }

    fn find_status_index(&self, st: JobStatus) -> (r: usize)
        ensures
            r as int == find_status(self@.rows, st, 0),
    {
        let mut i: usize = 0;
        while i < self.jobs.len()
            invariant
                i <= self.jobs@.len(),
                find_status(self@.rows, st, 0) == find_status(self@.rows, st, i as int),
            decreases self.jobs@.len() - i,
        {
            assert(self@.rows[i as int] == self.jobs@[i as int]@);
            if self.jobs[i].status == st {
                return i;
            }
            i = i + 1;
        }
        i
    }

    fn find_id_index(&self, id: i32) -> (r: usize)
        ensures
            r as int == find_id(self@.rows, id, 0),
    {
        let mut i: usize = 0;
        while i < self.jobs.len()
            invariant
                i <= self.jobs@.len(),
                find_id(self@.rows, id, 0) == find_id(self@.rows, id, i as int),
            decreases self.jobs@.len() - i,
        {
            assert(self@.rows[i as int] == self.jobs@[i as int]@);
            if self.jobs[i].id == id {
                return i;
            }
            i = i + 1;
        }
        i
    }

    fn find_later_index(&self, t: i64) -> (r: usize)
        ensures
            r as int == find_later(self@.rows, t, 0),
    {
        let mut i: usize = 0;
        while i < self.jobs.len()
            invariant
                i <= self.jobs@.len(),
                find_later(self@.rows, t, 0) == find_later(self@.rows, t, i as int),
            decreases self.jobs@.len() - i,
        {
            assert(self@.rows[i as int] == self.jobs@[i as int]@);
            if self.jobs[i].time_created > t {
                return i;
            }
            i = i + 1;
        }
        i
    }
}


/// Relies on `std::time::SystemTime::now` and `SystemTime::duration_since`:
/// the milliseconds since the Unix epoch, `None` where the clock is set
/// before it. Nothing is promised of the value.
#[verifier::external_body]
fn clock_millis() -> (r: Option<u128>) {
    std::time::SystemTime::now().duration_since(std::time::UNIX_EPOCH).ok().map(|d| d.as_millis())
}

/// The time now, in milliseconds since the Unix epoch: 0 where the clock is
/// set before the epoch, and the largest `i64` where it is past that.
pub fn now() -> (r: i64)
    ensures
        r >= 0,
{
    match clock_millis() {
        Some(ms) => if ms > i64::MAX as u128 {
            i64::MAX
        } else {
            ms as i64
        },
        None => 0,
    }
}

proof fn lemma_view_insert(jobs: Seq<Job>, i: int, j: Job)
    requires
        0 <= i <= jobs.len(),
    ensures
        jobs.insert(i, j).map_values(|x: Job| x@) == jobs.map_values(|x: Job| x@).insert(i, j@),
{
    assert(jobs.insert(i, j).map_values(|x: Job| x@) =~= jobs.map_values(|x: Job| x@).insert(
        i,
        j@,
    ));
}

proof fn lemma_view_update(jobs: Seq<Job>, i: int, j: Job)
    requires
        0 <= i < jobs.len(),
    ensures
        jobs.update(i, j).map_values(|x: Job| x@) == jobs.map_values(|x: Job| x@).update(i, j@),
{
    assert(jobs.update(i, j).map_values(|x: Job| x@) =~= jobs.map_values(|x: Job| x@).update(
        i,
        j@,
    ));
}

/// Enqueuing keeps the table's invariant.
pub proof fn lemma_enqueue_wf(q: QueueView, text: Seq<char>, user: Option<Seq<char>>, t: i64)
    requires
        queue_wf(q),
    ensures
        queue_wf(enqueue(q, text, user, t).0),
{
    lemma_find_queued(q.rows, text, 0);
    lemma_find_later(q.rows, t, 0);
    let k = find_queued(q.rows, text, 0);
    if k >= q.rows.len() && q.next_id <= i32::MAX {
        let pos = find_later(q.rows, t, 0);
        let id = q.next_id as i32;
        let n = new_job(id, text, user, t);
        let rows2 = q.rows.insert(pos, n);
        assert forall|i: int, j: int|
            0 <= i <= j < rows2.len() implies #[trigger] rows2[i].time_created
            <= #[trigger] rows2[j].time_created by {
            if i < pos && j > pos {
                assert(rows2[j] == q.rows[j - 1]);
                assert(q.rows[i].time_created <= q.rows[pos - 1].time_created);
            }
            if j > pos && i == pos {
                assert(rows2[j] == q.rows[j - 1]);
                assert(q.rows[pos].time_created <= q.rows[j - 1].time_created);
            }
            if i < pos && j == pos {
                assert(q.rows[i].time_created <= t);
            }
        }
        assert forall|i: int, j: int|
            0 <= i < rows2.len() && 0 <= j < rows2.len() && i != j && #[trigger] rows2[i].status
                == JobStatus::Queued && #[trigger] rows2[j].status
                == JobStatus::Queued implies rows2[i].params != rows2[j].params by {
            if i == pos {
                let jj = if j < pos { j } else { j - 1 };
                assert(rows2[j] == q.rows[jj]);
            } else if j == pos {
                let ii = if i < pos { i } else { i - 1 };
                assert(rows2[i] == q.rows[ii]);
            } else {
                let ii = if i < pos { i } else { i - 1 };
                let jj = if j < pos { j } else { j - 1 };
                assert(rows2[i] == q.rows[ii]);
                assert(rows2[j] == q.rows[jj]);
            }
        }
        assert forall|i: int, j: int|
            0 <= i < rows2.len() && 0 <= j < rows2.len() && #[trigger] rows2[i].status
                == JobStatus::Processing && #[trigger] rows2[j].status
                == JobStatus::Processing implies i == j by {
            let ii = if i < pos { i } else { i - 1 };
            let jj = if j < pos { j } else { j - 1 };
            if i != pos && j != pos {
                assert(rows2[i] == q.rows[ii]);
                assert(rows2[j] == q.rows[jj]);
            }
        }
        assert forall|i: int, j: int|
            0 <= i < rows2.len() && 0 <= j < rows2.len() && i != j implies #[trigger] rows2[i].id
            != #[trigger] rows2[j].id by {
            let ii = if i < pos { i } else { i - 1 };
            let jj = if j < pos { j } else { j - 1 };
            if i != pos {
                assert(rows2[i] == q.rows[ii]);
            }
            if j != pos {
                assert(rows2[j] == q.rows[jj]);
            }
        }
        assert forall|i: int| 0 <= i < rows2.len() implies 1 <= #[trigger] rows2[i].id < q.next_id
            + 1 by {
            let ii = if i < pos { i } else { i - 1 };
            if i != pos {
                assert(rows2[i] == q.rows[ii]);
            }
        }
    }
}

proof fn lemma_find_queued_at(rows: Seq<JobView>, text: Seq<char>, i: int, p: int)
    requires
        0 <= i <= p < rows.len(),
        rows[p].status == JobStatus::Queued && rows[p].params == text,
        forall|k: int| i <= k < p ==> !(#[trigger] rows[k].status == JobStatus::Queued
            && rows[k].params == text),
    ensures
        find_queued(rows, text, i) == p,
    decreases p - i,
{
    if i < p {
        lemma_find_queued_at(rows, text, i + 1, p);
    }
}

pub proof fn lemma_find_id_unique(rows: Seq<JobView>, k: int)
    requires
        0 <= k < rows.len(),
        forall|i: int, j: int|
            0 <= i < rows.len() && 0 <= j < rows.len() && i != j ==> #[trigger] rows[i].id
                != #[trigger] rows[j].id,
    ensures
        find_id(rows, rows[k].id, 0) == k,
{
    lemma_find_id(rows, rows[k].id, 0);
}

/// Enqueuing the same payload a second time while the first is still queued
/// gives the same job id, and the table does not change.
pub proof fn law_enqueue_idempotent(
    q: QueueView,
    text: Seq<char>,
    user1: Option<Seq<char>>,
    t1: i64,
    user2: Option<Seq<char>>,
    t2: i64,
)
    requires
        queue_wf(q),
        enqueue(q, text, user1, t1).1 is Ok,
    ensures
        ({
            let (q1, r1) = enqueue(q, text, user1, t1);
            let (q2, r2) = enqueue(q1, text, user2, t2);
            r2 == r1 && q2 == q1
        }),
{
    lemma_find_queued(q.rows, text, 0);
    lemma_find_later(q.rows, t1, 0);
    let k = find_queued(q.rows, text, 0);
    if k >= q.rows.len() {
        let pos = find_later(q.rows, t1, 0);
        let rows2 = q.rows.insert(pos, new_job(q.next_id as i32, text, user1, t1));
        assert forall|i: int| 0 <= i < pos implies !(#[trigger] rows2[i].status
            == JobStatus::Queued && rows2[i].params == text) by {
            assert(rows2[i] == q.rows[i]);
        }
        lemma_find_queued_at(rows2, text, 0, pos);
    }
}

/// A job left being processed (its worker stopped midway) is the next one
/// handed out, before any queued job, whatever their creation times.
pub proof fn law_interrupted_job_first(q: QueueView, k: int)
    requires
        queue_wf(q),
        0 <= k < q.rows.len(),
        q.rows[k].status == JobStatus::Processing,
    ensures
        next_job(q.rows) == Some(q.rows[k]),
{
    lemma_find_status(q.rows, JobStatus::Processing, 0);
}

/// Where no job is being processed, the next one handed out is queued and
/// no queued job was created before it.
pub proof fn law_oldest_queued_first(q: QueueView)
    requires
        queue_wf(q),
        forall|i: int| 0 <= i < q.rows.len() ==> #[trigger] q.rows[i].status
            != JobStatus::Processing,
    ensures
        match next_job(q.rows) {
            Some(j) => j.status == JobStatus::Queued && forall|i: int|
                0 <= i < q.rows.len() && #[trigger] q.rows[i].status == JobStatus::Queued
                    ==> j.time_created <= q.rows[i].time_created,
            None => forall|i: int| 0 <= i < q.rows.len() ==> !is_outstanding(#[trigger] q.rows[i]),
        },
{
    lemma_find_status(q.rows, JobStatus::Processing, 0);
    lemma_find_status(q.rows, JobStatus::Queued, 0);
    let k = find_status(q.rows, JobStatus::Queued, 0);
    assert forall|i: int|
        0 <= i < q.rows.len() && #[trigger] q.rows[i].status == JobStatus::Queued implies k
        <= i by {}
}

proof fn lemma_next_is_earliest(rows: Seq<JobView>, k: int)
    requires
        0 <= k < rows.len(),
        rows[k].status == JobStatus::Queued,
        forall|i: int| 0 <= i < rows.len() ==> #[trigger] rows[i].status != JobStatus::Processing,
        forall|i: int, j: int|
            0 <= i <= j < rows.len() ==> #[trigger] rows[i].time_created
                <= #[trigger] rows[j].time_created,
        forall|i: int|
            0 <= i < rows.len() && i != k && #[trigger] rows[i].status == JobStatus::Queued
                ==> rows[k].time_created < rows[i].time_created,
    ensures
        next_job(rows) == Some(rows[k]),
{
    lemma_find_status(rows, JobStatus::Processing, 0);
    lemma_find_status(rows, JobStatus::Queued, 0);
    let kk = find_status(rows, JobStatus::Queued, 0);
    if kk != k {
        assert(rows[kk].time_created <= rows[k].time_created);
    }
}

/// Running a job through: marked as processed at `s`, then finished at `f`,
/// successful where `e` is `None`, failed with that text otherwise.
pub open spec fn run_through(q: QueueView, id: i32, s: i64, f: i64, e: Option<Seq<char>>) -> QueueView {
    match start(q, id, s) {
        Ok(q1) => match finish(q1, id, f, e) {
            Ok(q2) => q2,
            Err(_) => q1,
        },
        Err(_) => q,
    }
}

proof fn lemma_run_through(q: QueueView, k: int, s: i64, f: i64, e: Option<Seq<char>>)
    requires
        0 <= k < q.rows.len(),
        q.rows[k].status == JobStatus::Queued,
        forall|i: int| 0 <= i < q.rows.len() ==> #[trigger] q.rows[i].status
            != JobStatus::Processing,
        forall|i: int, j: int|
            0 <= i < q.rows.len() && 0 <= j < q.rows.len() && i != j ==> #[trigger] q.rows[i].id
                != #[trigger] q.rows[j].id,
    ensures
        ({
            let q2 = run_through(q, q.rows[k].id, s, f, e);
            &&& q2.rows.len() == q.rows.len()
            &&& !is_outstanding(q2.rows[k])
            &&& q2.rows[k].time_finished == Some(f)
            &&& forall|i: int| 0 <= i < q.rows.len() && i != k ==> #[trigger] q2.rows[i] == q.rows[i]
            &&& forall|i: int| 0 <= i < q.rows.len() ==> #[trigger] q2.rows[i].id == q.rows[i].id
                && q2.rows[i].time_created == q.rows[i].time_created
        }),
{
    let id = q.rows[k].id;
    lemma_find_id_unique(q.rows, k);
    lemma_find_status(q.rows, JobStatus::Processing, 0);
    let q1 = start(q, id, s).unwrap();
    assert forall|i: int, j: int|
        0 <= i < q1.rows.len() && 0 <= j < q1.rows.len() && i != j implies #[trigger] q1.rows[i].id
        != #[trigger] q1.rows[j].id by {
        assert(q1.rows[i].id == q.rows[i].id);
        assert(q1.rows[j].id == q.rows[j].id);
    }
    lemma_find_id_unique(q1.rows, k);
}

/// Jobs created at t1 < t2 < t3 are handed out in that order, each once the
/// one before it has run through (successful or failed); after the third,
/// none is left.
pub proof fn law_creation_order(
    q: QueueView,
    a: int,
    b: int,
    c: int,
    s1: i64,
    f1: i64,
    e1: Option<Seq<char>>,
    s2: i64,
    f2: i64,
    e2: Option<Seq<char>>,
    s3: i64,
    f3: i64,
    e3: Option<Seq<char>>,
)
    requires
        queue_wf(q),
        0 <= a < q.rows.len(),
        0 <= b < q.rows.len(),
        0 <= c < q.rows.len(),
        q.rows[a].status == JobStatus::Queued,
        q.rows[b].status == JobStatus::Queued,
        q.rows[c].status == JobStatus::Queued,
        q.rows[a].time_created < q.rows[b].time_created < q.rows[c].time_created,
        forall|i: int| 0 <= i < q.rows.len() && is_outstanding(#[trigger] q.rows[i]) ==> i == a || i
            == b || i == c,
    ensures
        next_job(q.rows) == Some(q.rows[a]),
        next_job(run_through(q, q.rows[a].id, s1, f1, e1).rows) == Some(q.rows[b]),
        next_job(
            run_through(run_through(q, q.rows[a].id, s1, f1, e1), q.rows[b].id, s2, f2, e2).rows,
        ) == Some(q.rows[c]),
        next_job(
            run_through(
                run_through(run_through(q, q.rows[a].id, s1, f1, e1), q.rows[b].id, s2, f2, e2),
                q.rows[c].id,
                s3,
                f3,
                e3,
            ).rows,
        ) is None,
{
    assert forall|i: int| 0 <= i < q.rows.len() implies #[trigger] q.rows[i].status
        != JobStatus::Processing by {
        if q.rows[i].status == JobStatus::Processing {
            assert(is_outstanding(q.rows[i]));
        }
    }
    assert forall|i: int|
        0 <= i < q.rows.len() && i != a && #[trigger] q.rows[i].status
            == JobStatus::Queued implies q.rows[a].time_created < q.rows[i].time_created by {
        assert(is_outstanding(q.rows[i]));
    }
    lemma_next_is_earliest(q.rows, a);
    lemma_run_through(q, a, s1, f1, e1);
    let q1 = run_through(q, q.rows[a].id, s1, f1, e1);
    assert forall|i: int| 0 <= i < q1.rows.len() implies #[trigger] q1.rows[i].status
        != JobStatus::Processing by {
        if i != a {
            assert(q1.rows[i] == q.rows[i]);
        }
    }
    assert forall|i: int|
        0 <= i < q1.rows.len() && i != b && #[trigger] q1.rows[i].status
            == JobStatus::Queued implies q1.rows[b].time_created < q1.rows[i].time_created by {
        if i != a {
            assert(q1.rows[i] == q.rows[i]);
            assert(is_outstanding(q.rows[i]));
        }
    }
    assert forall|i: int, j: int|
        0 <= i <= j < q1.rows.len() implies #[trigger] q1.rows[i].time_created
        <= #[trigger] q1.rows[j].time_created by {
        assert(q1.rows[i].id == q.rows[i].id);
        assert(q1.rows[j].id == q.rows[j].id);
        assert(q.rows[i].time_created <= q.rows[j].time_created);
    }
    assert(q1.rows[b] == q.rows[b]);
    assert(q1.rows[c] == q.rows[c]);
    lemma_next_is_earliest(q1.rows, b);
    assert forall|i: int, j: int|
        0 <= i < q1.rows.len() && 0 <= j < q1.rows.len() && i != j implies #[trigger] q1.rows[i].id
        != #[trigger] q1.rows[j].id by {
        assert(q1.rows[i].id == q.rows[i].id);
        assert(q1.rows[j].id == q.rows[j].id);
    }
    lemma_run_through(q1, b, s2, f2, e2);
    let q2 = run_through(q1, q1.rows[b].id, s2, f2, e2);
    assert forall|i: int| 0 <= i < q2.rows.len() implies #[trigger] q2.rows[i].status
        != JobStatus::Processing by {
        if i != b {
            assert(q2.rows[i] == q1.rows[i]);
        }
    }
    assert forall|i: int|
        0 <= i < q2.rows.len() && i != c && #[trigger] q2.rows[i].status
            == JobStatus::Queued implies q2.rows[c].time_created < q2.rows[i].time_created by {
        if i != b {
            assert(q2.rows[i] == q1.rows[i]);
            if i != a {
                assert(q1.rows[i] == q.rows[i]);
                assert(is_outstanding(q.rows[i]));
            }
        }
    }
    assert forall|i: int, j: int|
        0 <= i <= j < q2.rows.len() implies #[trigger] q2.rows[i].time_created
        <= #[trigger] q2.rows[j].time_created by {
        assert(q2.rows[i].id == q1.rows[i].id);
        assert(q2.rows[j].id == q1.rows[j].id);
        assert(q1.rows[i].id == q.rows[i].id);
        assert(q1.rows[j].id == q.rows[j].id);
        assert(q.rows[i].time_created <= q.rows[j].time_created);
    }
    assert(q2.rows[c] == q1.rows[c]);
    lemma_next_is_earliest(q2.rows, c);
    assert forall|i: int, j: int|
        0 <= i < q2.rows.len() && 0 <= j < q2.rows.len() && i != j implies #[trigger] q2.rows[i].id
        != #[trigger] q2.rows[j].id by {
        assert(q2.rows[i].id == q1.rows[i].id);
        assert(q2.rows[j].id == q1.rows[j].id);
        assert(q1.rows[i].id == q.rows[i].id);
        assert(q1.rows[j].id == q.rows[j].id);
    }
    lemma_run_through(q2, c, s3, f3, e3);
    let q3 = run_through(q2, q2.rows[c].id, s3, f3, e3);
    assert forall|i: int| 0 <= i < q3.rows.len() implies !is_outstanding(#[trigger] q3.rows[i]) by {
        if i != c {
            assert(q3.rows[i] == q2.rows[i]);
            if i != b {
                assert(q2.rows[i] == q1.rows[i]);
                if i != a {
                    assert(q1.rows[i] == q.rows[i]);
                }
            }
        }
    }
    lemma_find_status(q3.rows, JobStatus::Processing, 0);
    lemma_find_status(q3.rows, JobStatus::Queued, 0);
}

/// A job left being processed after a restart is taken up first and, once
/// run to its end (successful or failed) at `f`, is finished; every other
/// job, queued ones included, is as it was.
pub proof fn law_interrupted_job_resumed(q: QueueView, k: int, s: i64, f: i64, e: Option<Seq<char>>)
    requires
        queue_wf(q),
        0 <= k < q.rows.len(),
        q.rows[k].status == JobStatus::Processing,
    ensures
        next_job(q.rows) == Some(q.rows[k]),
        start(q, q.rows[k].id, s) is Ok,
        finish(start(q, q.rows[k].id, s).unwrap(), q.rows[k].id, f, e) is Ok,
        ({
            let q2 = finish(start(q, q.rows[k].id, s).unwrap(), q.rows[k].id, f, e).unwrap();
            &&& q2.rows.len() == q.rows.len()
            &&& !is_outstanding(q2.rows[k])
            &&& q2.rows[k].time_finished == Some(f)
            &&& forall|i: int| 0 <= i < q.rows.len() && i != k ==> #[trigger] q2.rows[i] == q.rows[i]
        }),
{
    law_interrupted_job_first(q, k);
    lemma_find_id_unique(q.rows, k);
    lemma_find_status(q.rows, JobStatus::Processing, 0);
    let q1 = start(q, q.rows[k].id, s).unwrap();
    assert forall|i: int, j: int|
        0 <= i < q1.rows.len() && 0 <= j < q1.rows.len() && i != j implies #[trigger] q1.rows[i].id
        != #[trigger] q1.rows[j].id by {
        assert(q1.rows[i].id == q.rows[i].id);
        assert(q1.rows[j].id == q.rows[j].id);
    }
    lemma_find_id_unique(q1.rows, k);
}

impl Job {
    /// Enqueues `job_params` for `user`, created at `time`. Where the same
    /// payload is already queued, its job's id comes back and nothing is added.
    pub fn add_at(queue: &mut JobQueue, job_params: &JobParams, user: Option<&User>, time: i64) -> (r:
        Result<i32, QueueError>)
        requires
            old(queue).wf(),
        ensures
            final(queue).wf(),
            (final(queue)@, r) == enqueue(old(queue)@, params_text(*job_params), user_name(user), time),
    {
        let text = params_string(job_params);
        let ghost q = queue@;
        proof {
            lemma_enqueue_wf(q, text@, user_name(user), time);
            lemma_find_queued(q.rows, text@, 0);
            lemma_find_later(q.rows, time, 0);
        }
        let k = queue.find_queued_index(&text);
        if k < queue.jobs.len() {
            assert(q.rows[k as int] == queue.jobs@[k as int]@);
            return Ok(queue.jobs[k].id);
        }
        if queue.next_id > i32::MAX as i64 {
            return Err(QueueError::IdsExhausted);
        }
        let id = queue.next_id as i32;
        let pos = queue.find_later_index(time);
        let username = match user {
            Some(u) => Some(u.username.clone()),
            None => None,
        };
        let job = Job {
            id,
            params: text,
            status: JobStatus::Queued,
            errors: None,
            username,
            time_created: time,
            time_started: None,
            time_finished: None,
        };
        assert(job@ == new_job(id, params_text(*job_params), user_name(user), time));
        proof {
            lemma_view_insert(queue.jobs@, pos as int, job);
        }
        queue.jobs.insert(pos, job);
        queue.next_id = queue.next_id + 1;
        Ok(id)
    }

    /// Enqueues `job_params` for `user`, created now; see `add_at`.
    pub fn add(queue: &mut JobQueue, job_params: JobParams, user: Option<&User>) -> (r: Result<
        i32,
        QueueError,
    >)
        requires
            old(queue).wf(),
        ensures
            final(queue).wf(),
            exists|t: i64|
                (final(queue)@, r) == enqueue(old(queue)@, params_text(job_params), user_name(user), t),
    {
        let time = now();
        Job::add_at(queue, &job_params, user, time)
    }

    /// The job that the worker takes next: the one left being processed, if
    /// any, else the oldest queued one; `None` when no job is outstanding.
    pub fn fetch_next(queue: &JobQueue) -> (r: Option<Job>)
        requires
            queue.wf(),
        ensures
            match (r, next_job(queue@.rows)) {
                (Some(j), Some(v)) => j@ == v,
                (None, None) => true,
                _ => false,
            },
    {
        let p = queue.find_status_index(JobStatus::Processing);
        if p < queue.jobs.len() {
            assert(queue@.rows[p as int] == queue.jobs@[p as int]@);
            return Some(copy_job(&queue.jobs[p]));
        }
        let k = queue.find_status_index(JobStatus::Queued);
        if k < queue.jobs.len() {
            assert(queue@.rows[k as int] == queue.jobs@[k as int]@);
            return Some(copy_job(&queue.jobs[k]));
        }
        None
    }

    /// Every job, newest first.
    pub fn fetch_all(queue: &JobQueue) -> (r: GetAllJobsResult)
        ensures
            r.jobs@.len() == queue@.rows.len(),
            forall|i: int|
                0 <= i < r.jobs@.len() ==> (#[trigger] r.jobs@[i])@ == queue@.rows[queue@.rows.len()
                    - 1 - i],
    {
        let mut jobs: Vec<Job> = Vec::new();
        let n = queue.jobs.len();
        let mut i: usize = n;
        while i > 0
            invariant
                i <= n == queue.jobs@.len(),
                jobs@.len() == n - i,
                forall|k: int|
                    0 <= k < jobs@.len() ==> (#[trigger] jobs@[k])@ == queue@.rows[n - 1 - k],
            decreases i,
        {
            i = i - 1;
            assert(queue@.rows[i as int] == queue.jobs@[i as int]@);
            jobs.push(copy_job(&queue.jobs[i]));
        }
        GetAllJobsResult { jobs }
    }

    fn transition(
        &mut self,
        queue: &mut JobQueue,
        time: i64,
        processing: bool,
        errors: Option<String>,
    ) -> (r: Result<(), QueueError>)
        requires
            old(queue).wf(),
        ensures
            final(queue).wf(),
            ({
                let want = if processing {
                    start(old(queue)@, old(self).id, time)
                } else {
                    finish(old(queue)@, old(self).id, time, opt_view(errors))
                };
                match (r, want) {
                    (Ok(()), Ok(q)) => final(queue)@ == q && final(self)@ == q.rows[find_id(
                        old(queue)@.rows,
                        old(self).id,
                        0,
                    )],
                    (Err(e), Err(f)) => e == f && final(queue)@ == old(queue)@ && *final(self)
                        == *old(self),
                    _ => false,
                }
            }),
    {
        let ghost q = queue@;
        proof {
            lemma_find_id(q.rows, self.id, 0);
            lemma_find_status(q.rows, JobStatus::Processing, 0);
        }
        let k = queue.find_id_index(self.id);
        if k >= queue.jobs.len() {
            return Err(QueueError::NoSuchJob);
        }
        assert(q.rows[k as int] == queue.jobs@[k as int]@);
        let mut job = copy_job(&queue.jobs[k]);
        if processing {
            if job.status != JobStatus::Queued && job.status != JobStatus::Processing {
                return Err(QueueError::AlreadyFinished);
            }
            let p = queue.find_status_index(JobStatus::Processing);
            if p < queue.jobs.len() && p != k {
                return Err(QueueError::Busy);
            }
            job.status = JobStatus::Processing;
            if job.time_started.is_none() {
                job.time_started = Some(time);
            }
        } else {
            if job.status != JobStatus::Processing {
                return Err(QueueError::NotProcessing);
            }
            match errors {
                Some(e) => {
                    job.status = JobStatus::Failed;
                    job.errors = Some(e);
                },
                None => {
                    job.status = JobStatus::Successful;
                },
            }
            job.time_finished = Some(time);
        }
        proof {
            lemma_view_update(queue.jobs@, k as int, job);
        }
        *self = copy_job(&job);
        queue.jobs.set(k, job);
        proof {
            let rows2 = queue@.rows;
            assert forall|i: int, j: int|
                0 <= i < rows2.len() && 0 <= j < rows2.len() && #[trigger] rows2[i].status
                    == JobStatus::Processing && #[trigger] rows2[j].status
                    == JobStatus::Processing implies i == j by {
                if i != k && j != k {
                    assert(rows2[i] == q.rows[i]);
                    assert(rows2[j] == q.rows[j]);
                } else if i == k && j != k {
                    assert(rows2[j] == q.rows[j]);
                } else if j == k && i != k {
                    assert(rows2[i] == q.rows[i]);
                }
            }
            assert forall|i: int, j: int|
                0 <= i < rows2.len() && 0 <= j < rows2.len() && i != j && #[trigger] rows2[i].status
                    == JobStatus::Queued && #[trigger] rows2[j].status
                    == JobStatus::Queued implies rows2[i].params != rows2[j].params by {
                assert(rows2[i] == q.rows[i]);
                assert(rows2[j] == q.rows[j]);
            }
            assert forall|i: int, j: int|
                0 <= i < rows2.len() && 0 <= j < rows2.len() && i != j implies #[trigger] rows2[i].id
                != #[trigger] rows2[j].id by {
                assert(rows2[i].id == q.rows[i].id);
                assert(rows2[j].id == q.rows[j].id);
            }
            assert forall|i: int, j: int|
                0 <= i <= j < rows2.len() implies #[trigger] rows2[i].time_created
                <= #[trigger] rows2[j].time_created by {
                assert(rows2[i].time_created == q.rows[i].time_created);
                assert(rows2[j].time_created == q.rows[j].time_created);
            }
            assert forall|i: int| 0 <= i < rows2.len() implies 1 <= #[trigger] rows2[i].id
                < q.next_id by {
                assert(rows2[i].id == q.rows[i].id);
            }
        }
        Ok(())
    }

    /// Marks this job as being processed from `time` on, in the table and in
    /// this handle. Refused where the job is finished or another job is being
    /// processed.
    pub fn mark_as_processing_at(&mut self, queue: &mut JobQueue, time: i64) -> (r: Result<
        (),
        QueueError,
    >)
        requires
            old(queue).wf(),
        ensures
            final(queue).wf(),
            match (r, start(old(queue)@, old(self).id, time)) {
                (Ok(()), Ok(q)) => final(queue)@ == q && final(self)@ == q.rows[find_id(
                    old(queue)@.rows,
                    old(self).id,
                    0,
                )],
                (Err(e), Err(f)) => e == f && final(queue)@ == old(queue)@ && *final(self)
                    == *old(self),
                _ => false,
            },
    {
        self.transition(queue, time, true, None)
    }

    /// Marks this job, being processed, as successful at `time`, in the table
    /// and in this handle.
    pub fn mark_as_successful_at(&mut self, queue: &mut JobQueue, time: i64) -> (r: Result<
        (),
        QueueError,
    >)
        requires
            old(queue).wf(),
        ensures
            final(queue).wf(),
            match (r, finish(old(queue)@, old(self).id, time, None)) {
                (Ok(()), Ok(q)) => final(queue)@ == q && final(self)@ == q.rows[find_id(
                    old(queue)@.rows,
                    old(self).id,
                    0,
                )],
                (Err(e), Err(f)) => e == f && final(queue)@ == old(queue)@ && *final(self)
                    == *old(self),
                _ => false,
            },
    {
        self.transition(queue, time, false, None)
    }

    /// Marks this job, being processed, as failed with `errors` at `time`, in
    /// the table and in this handle.
    pub fn mark_as_failed_at(&mut self, queue: &mut JobQueue, errors: String, time: i64) -> (r:
        Result<(), QueueError>)
        requires
            old(queue).wf(),
        ensures
            final(queue).wf(),
            match (r, finish(old(queue)@, old(self).id, time, Some(errors@))) {
                (Ok(()), Ok(q)) => final(queue)@ == q && final(self)@ == q.rows[find_id(
                    old(queue)@.rows,
                    old(self).id,
                    0,
                )],
                (Err(e), Err(f)) => e == f && final(queue)@ == old(queue)@ && *final(self)
                    == *old(self),
                _ => false,
            },
    {
        self.transition(queue, time, false, Some(errors))
    }
    /// Marks this job as being processed from now on; see `mark_as_processing_at`.
    pub fn mark_as_processing(&mut self, queue: &mut JobQueue) -> (r: Result<(), QueueError>)
        requires
            old(queue).wf(),
        ensures
            final(queue).wf(),
            exists|t: i64|
                #[trigger] applied(
                    start(old(queue)@, old(self).id, t),
                    old(queue)@,
                    *old(self),
                    r,
                    final(queue)@,
                    *final(self),
                ),
    {
        let time = now();
        let r = self.mark_as_processing_at(queue, time);
        assert(applied(start(old(queue)@, old(self).id, time), old(queue)@, *old(self), r, queue@, *self));
        r
    }

    /// Marks this job, being processed, as successful now; see `mark_as_successful_at`.
    pub fn mark_as_successful(&mut self, queue: &mut JobQueue) -> (r: Result<(), QueueError>)
        requires
            old(queue).wf(),
        ensures
            final(queue).wf(),
            exists|t: i64|
                #[trigger] applied(
                    finish(old(queue)@, old(self).id, t, None),
                    old(queue)@,
                    *old(self),
                    r,
                    final(queue)@,
                    *final(self),
                ),
    {
        let time = now();
        let r = self.mark_as_successful_at(queue, time);
        assert(applied(finish(old(queue)@, old(self).id, time, None), old(queue)@, *old(self), r, queue@, *self));
        r
    }

    /// Marks this job, being processed, as failed with `errors` now; see `mark_as_failed_at`.
    pub fn mark_as_failed(&mut self, queue: &mut JobQueue, errors: String) -> (r: Result<(), QueueError>)
        requires
            old(queue).wf(),
        ensures
            final(queue).wf(),
            exists|t: i64|
                #[trigger] applied(
                    finish(old(queue)@, old(self).id, t, Some(errors@)),
                    old(queue)@,
                    *old(self),
                    r,
                    final(queue)@,
                    *final(self),
                ),
    {
        let time = now();
        let ghost text = errors@;
        let r = self.mark_as_failed_at(queue, errors, time);
        assert(applied(finish(old(queue)@, old(self).id, time, Some(text)), old(queue)@, *old(self), r, queue@, *self));
        r
    }
}


/// Rows `i < j` of a job table agree with its invariant.
pub open spec fn pair_ok(a: JobView, b: JobView) -> bool {
    &&& a.id != b.id
    &&& a.time_created <= b.time_created
    &&& !(a.status == JobStatus::Queued && b.status == JobStatus::Queued && a.params == b.params)
    &&& !(a.status == JobStatus::Processing && b.status == JobStatus::Processing)
}

/// Rows read back from storage that can form a job table: positive ids,
/// and every pair of rows in order agrees with the invariant.
pub open spec fn rows_ok(rows: Seq<JobView>) -> bool {
    &&& forall|i: int| 0 <= i < rows.len() ==> #[trigger] rows[i].id >= 1
    &&& forall|i: int, j: int| 0 <= i < j < rows.len() ==> pair_ok(#[trigger] rows[i], #[trigger] rows[j])
}

/// The largest id among `rows`, or 0.
pub open spec fn max_id(rows: Seq<JobView>) -> int
    decreases rows.len(),
{
    if rows.len() == 0 {
        0
    } else {
        let m = max_id(rows.drop_last());
        if rows.last().id > m {
            rows.last().id as int
        } else {
            m
        }
    }
}

proof fn lemma_max_id(rows: Seq<JobView>)
    ensures
        0 <= max_id(rows) <= i32::MAX,
        forall|i: int| 0 <= i < rows.len() ==> #[trigger] rows[i].id <= max_id(rows),
    decreases rows.len(),
{
    if rows.len() > 0 {
        lemma_max_id(rows.drop_last());
        assert forall|i: int| 0 <= i < rows.len() implies #[trigger] rows[i].id <= max_id(rows) by {
            if i < rows.len() - 1 {
                assert(rows[i] == rows.drop_last()[i]);
            }
        }
    }
}

proof fn lemma_rows_ok_wf(rows: Seq<JobView>)
    requires
        rows_ok(rows),
    ensures
        queue_wf(QueueView { rows, next_id: max_id(rows) + 1 }),
{
    lemma_max_id(rows);
    assert forall|i: int, j: int|
        0 <= i < rows.len() && 0 <= j < rows.len() && i != j implies #[trigger] rows[i].id
        != #[trigger] rows[j].id by {
        if i < j {
            assert(pair_ok(rows[i], rows[j]));
        } else {
            assert(pair_ok(rows[j], rows[i]));
        }
    }
    assert forall|i: int, j: int|
        0 <= i <= j < rows.len() implies #[trigger] rows[i].time_created
        <= #[trigger] rows[j].time_created by {
        if i < j {
            assert(pair_ok(rows[i], rows[j]));
        }
    }
    assert forall|i: int, j: int|
        0 <= i < rows.len() && 0 <= j < rows.len() && i != j && #[trigger] rows[i].status
            == JobStatus::Queued && #[trigger] rows[j].status == JobStatus::Queued implies rows[i].params
        != rows[j].params by {
        if i < j {
            assert(pair_ok(rows[i], rows[j]));
        } else {
            assert(pair_ok(rows[j], rows[i]));
        }
    }
    assert forall|i: int, j: int|
        0 <= i < rows.len() && 0 <= j < rows.len() && #[trigger] rows[i].status
            == JobStatus::Processing && #[trigger] rows[j].status == JobStatus::Processing implies i
        == j by {
        if i < j {
            assert(pair_ok(rows[i], rows[j]));
        } else if j < i {
            assert(pair_ok(rows[j], rows[i]));
        }
    }
}

fn pair_ok_exec(a: &Job, b: &Job) -> (r: bool)
    ensures
        r == pair_ok(a@, b@),
{
    a.id != b.id && a.time_created <= b.time_created && !(a.status == JobStatus::Queued
        && b.status == JobStatus::Queued && a.params == b.params) && !(a.status
        == JobStatus::Processing && b.status == JobStatus::Processing)
}

impl JobQueue {
    /// A queue over `jobs`, rows read back from storage in order of creation
    /// time; `None` where they cannot form a job table (see `rows_ok`). The
    /// next job gets the id after the largest.
    pub fn restore(jobs: Vec<Job>) -> (r: Option<JobQueue>)
        ensures
            match r {
                Some(q) => q.wf() && q@.rows == jobs@.map_values(|j: Job| j@) && q@.next_id == max_id(
                    q@.rows,
                ) + 1,
                None => !rows_ok(jobs@.map_values(|j: Job| j@)),
            },
    {
        let ghost rows = jobs@.map_values(|j: Job| j@);
        let n = jobs.len();
        let mut max: i32 = 0;
        let mut i: usize = 0;
        while i < n
            invariant
                n == jobs@.len(),
                rows == jobs@.map_values(|j: Job| j@),
                i <= n,
                max as int == max_id(rows.take(i as int)),
                forall|k: int| 0 <= k < i ==> #[trigger] rows[k].id >= 1,
            decreases n - i,
        {
            assert(rows.take(i + 1).drop_last() =~= rows.take(i as int));
            assert(rows[i as int] == jobs@[i as int]@);
            if jobs[i].id < 1 {
                return None;
            }
            if jobs[i].id > max {
                max = jobs[i].id;
            }
            i = i + 1;
        }
        assert(rows.take(n as int) =~= rows);
        let mut a: usize = 0;
        while a < n
            invariant
                n == jobs@.len(),
                rows == jobs@.map_values(|j: Job| j@),
                a <= n,
                forall|x: int, y: int| 0 <= x < a && x < y < n ==> pair_ok(#[trigger] rows[x], #[trigger] rows[y]),
            decreases n - a,
        {
            let mut b: usize = a + 1;
            while b < n
                invariant
                    n == jobs@.len(),
                    rows == jobs@.map_values(|j: Job| j@),
                    a < n,
                    a + 1 <= b <= n,
                    forall|x: int, y: int| 0 <= x < a && x < y < n ==> pair_ok(#[trigger] rows[x], #[trigger] rows[y]),
                    forall|y: int| a < y < b ==> pair_ok(rows[a as int], #[trigger] rows[y]),
                decreases n - b,
            {
                assert(rows[a as int] == jobs@[a as int]@);
                assert(rows[b as int] == jobs@[b as int]@);
                if !pair_ok_exec(&jobs[a], &jobs[b]) {
                    return None;
                }
                b = b + 1;
            }
            a = a + 1;
        }
        proof {
            lemma_rows_ok_wf(rows);
        }
        Some(JobQueue { jobs, next_id: max as i64 + 1 })
    }
}

} // verus!

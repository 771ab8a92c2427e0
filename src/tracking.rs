//! Asking for series to be scraped.
use vstd::prelude::*;
use crate::asin::{is_asin, looks_like_asin};
use crate::job::{Job, JobQueue, QueueError, QueueView, User, enqueue, now, user_name};
use crate::params::{JobParams, series_params_text};
use crate::store::{BookSeries, Repository, SeriesView};

verus! {

/// The result of asking to track a series: the id of the job that scrapes it.
pub struct AddSeriesResult {
    pub job_id: i32,
}

/// Why a series could not be enqueued.
#[derive(PartialEq, Eq, Structural, Clone, Copy, Debug)]
pub enum EnqueueError {
    /// The text is no product id.
    NotAnAsin,
    /// The queue refused.
    Queue(QueueError),
}

/// Enqueuing a scrape of series `asin` for `user` at `t` turned `q0` into
/// `q1` and gave `r`.
pub open spec fn enqueued_series(
    q0: QueueView,
    q1: QueueView,
    asin: Seq<char>,
    user: Option<Seq<char>>,
    t: i64,
    r: Result<AddSeriesResult, EnqueueError>,
) -> bool {
    let (q, e) = enqueue(q0, series_params_text(asin), user, t);
    &&& q1 == q
    &&& match (r, e) {
        (Ok(a), Ok(id)) => a.job_id == id,
        (Err(x), Err(y)) => x == EnqueueError::Queue(y),
        _ => false,
    }
}

/// Enqueues a scrape of series `asin` for `user`, created at `time`, once
/// `asin` is checked to be a product id.
pub fn enqueue_series_at(queue: &mut JobQueue, asin: &str, user: Option<&User>, time: i64) -> (r: Result<
    AddSeriesResult,
    EnqueueError,
>)
    requires
        old(queue).wf(),
    ensures
        final(queue).wf(),
        !is_asin(asin@) ==> r == Err::<AddSeriesResult, EnqueueError>(EnqueueError::NotAnAsin)
            && final(queue)@ == old(queue)@,
        is_asin(asin@) ==> enqueued_series(old(queue)@, final(queue)@, asin@, user_name(user), time, r),
{
    if !looks_like_asin(asin) {
        return Err(EnqueueError::NotAnAsin);
    }
    let params = JobParams::Series { asin: asin.to_string() };
    match Job::add_at(queue, &params, user, time) {
        Ok(job_id) => Ok(AddSeriesResult { job_id }),
        Err(e) => Err(EnqueueError::Queue(e)),
    }
}

/// Enqueues a scrape of series `asin` for `user`, created now; see `enqueue_series_at`.
pub fn enqueue_series(queue: &mut JobQueue, asin: &str, user: Option<&User>) -> (r: Result<
    AddSeriesResult,
    EnqueueError,
>)
    requires
        old(queue).wf(),
    ensures
        final(queue).wf(),
        !is_asin(asin@) <==> r == Err::<AddSeriesResult, EnqueueError>(EnqueueError::NotAnAsin),
        !is_asin(asin@) ==> final(queue)@ == old(queue)@,
        is_asin(asin@) ==> exists|t: i64| #[trigger] enqueued_series(old(queue)@, final(queue)@, asin@, user_name(user), t, r),
{
    let time = now();
    enqueue_series_at(queue, asin, user, time)
}

/// Enqueuing a scrape of each of `series`, in order, for `user` at `t`;
/// stops at the first refusal.
pub open spec fn enqueue_each(q: QueueView, series: Seq<SeriesView>, user: Option<Seq<char>>, t: i64) -> (
    QueueView,
    Result<(), QueueError>,
)
    decreases series.len(),
{
    if series.len() == 0 {
        (q, Ok(()))
    } else {
        let (q0, r0) = enqueue_each(q, series.drop_last(), user, t);
        if r0 is Err {
            (q0, r0)
        } else {
            let (q1, r1) = enqueue(q0, series_params_text(series.last().asin), user, t);
            (
                q1,
                match r1 {
                    Ok(_) => Ok(()),
                    Err(e) => Err(e),
                },
            )
        }
    }
}

proof fn lemma_enqueue_each_prefix_err(q: QueueView, ss: Seq<SeriesView>, user: Option<Seq<char>>, t: i64, n: int)
    requires
        0 <= n <= ss.len(),
        enqueue_each(q, ss.take(n), user, t).1 is Err,
    ensures
        enqueue_each(q, ss, user, t) == enqueue_each(q, ss.take(n), user, t),
    decreases ss.len() - n,
{
    if n < ss.len() {
        assert(ss.take(n + 1).drop_last() =~= ss.take(n));
        lemma_enqueue_each_prefix_err(q, ss, user, t, n + 1);
    } else {
        assert(ss.take(n) =~= ss);
    }
}

/// Enqueues a scrape of every recorded series, in order of first save, for
/// `user` at `time`. Already queued scrapes are not duplicated.
pub fn enqueue_all_series_at(repository: &Repository, queue: &mut JobQueue, user: Option<&User>, time: i64) -> (r:
    Result<(), QueueError>)
    requires
        old(queue).wf(),
    ensures
        final(queue).wf(),
        (final(queue)@, r) == enqueue_each(old(queue)@, repository@.series, user_name(user), time),
{
    let all_series = BookSeries::fetch_all(repository);
    let ghost q = queue@;
    let ghost ss = repository@.series;
    let mut i: usize = 0;
    while i < all_series.len()
        invariant
            i <= all_series@.len(),
            queue.wf(),
            q == old(queue)@,
            ss == repository@.series,
            all_series@.map_values(|s: BookSeries| s@) == ss,
            (queue@, Ok::<(), QueueError>(())) == enqueue_each(q, ss.take(i as int), user_name(user), time),
        decreases all_series@.len() - i,
    {
        assert(ss.take(i + 1).drop_last() =~= ss.take(i as int));
        assert(ss[i as int] == all_series@[i as int]@);
        let params = JobParams::Series { asin: all_series[i].asin.clone() };
        match Job::add_at(queue, &params, user, time) {
            Ok(_) => {},
            Err(e) => {
                proof {
                    assert(ss.take(i + 1).last() == ss[i as int]);
                    lemma_enqueue_each_prefix_err(q, ss, user_name(user), time, i + 1);
                }
                return Err(e);
            },
        }
        i = i + 1;
    }
    assert(ss.take(i as int) =~= ss);
    Ok(())
}

/// Enqueues a scrape of every recorded series now; see `enqueue_all_series_at`.
pub fn enqueue_all_series(repository: &Repository, queue: &mut JobQueue, user: Option<&User>) -> (r: Result<
    (),
    QueueError,
>)
    requires
        old(queue).wf(),
    ensures
        final(queue).wf(),
        exists|t: i64| (final(queue)@, r) == enqueue_each(old(queue)@, repository@.series, user_name(user), t),
{
    let time = now();
    enqueue_all_series_at(repository, queue, user, time)
}

} // verus!

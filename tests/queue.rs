use book_series_tracker::job::{Job, JobQueue, JobStatus, QueueError, User};
use book_series_tracker::params::{params_string, JobParams};
use book_series_tracker::response::ApiResponse;
use book_series_tracker::tracking::{enqueue_all_series_at, enqueue_series_at, EnqueueError};
use book_series_tracker::store::{BookSeries, Repository};

fn series(asin: &str) -> JobParams {
    JobParams::Series { asin: asin.to_string() }
}

#[test]
fn params_text_is_the_tagged_json() {
    assert_eq!(
        params_string(&series("B0DLX35C16")),
        "{\"variant\":\"Series\",\"asin\":\"B0DLX35C16\"}"
    );
    assert_eq!(
        params_string(&JobParams::Book { asin: "B0DLX35C16".to_string(), parent: 7 }),
        "{\"variant\":\"Book\",\"asin\":\"B0DLX35C16\",\"parent\":7}"
    );
    assert_eq!(
        params_string(&JobParams::Book { asin: "x".to_string(), parent: -2147483648 }),
        "{\"variant\":\"Book\",\"asin\":\"x\",\"parent\":-2147483648}"
    );
    assert_eq!(
        params_string(&series("a\"b\\c\nd\u{1}")),
        "{\"variant\":\"Series\",\"asin\":\"a\\\"b\\\\c\\nd\\u0001\"}"
    );
}

#[test]
fn enqueue_same_payload_twice_gives_same_id() {
    let mut q = JobQueue::new();
    let a = Job::add_at(&mut q, &series("B0DLX35C16"), None, 100).unwrap();
    let b = Job::add_at(&mut q, &series("B0DLX35C16"), None, 200).unwrap();
    assert_eq!(a, b);
    assert_eq!(q.len(), 1);
    let c = Job::add_at(&mut q, &series("B000000001"), None, 300).unwrap();
    assert_ne!(a, c);
    assert_eq!(q.len(), 2);
}

#[test]
fn enqueue_again_once_first_left_the_queue() {
    let mut q = JobQueue::new();
    let a = Job::add_at(&mut q, &series("B0DLX35C16"), None, 1).unwrap();
    let mut job = Job::fetch_next(&q).unwrap();
    job.mark_as_processing_at(&mut q, 2).unwrap();
    let b = Job::add_at(&mut q, &series("B0DLX35C16"), None, 3).unwrap();
    assert_ne!(a, b);
    assert_eq!(q.len(), 2);
}

#[test]
fn new_job_fields() {
    let mut q = JobQueue::new();
    let user = User { username: "alice".to_string() };
    let id = Job::add_at(&mut q, &series("B0DLX35C16"), Some(&user), 42).unwrap();
    let job = q.get(0);
    assert_eq!(job.id, id);
    assert_eq!(job.status, JobStatus::Queued);
    assert_eq!(job.params, "{\"variant\":\"Series\",\"asin\":\"B0DLX35C16\"}");
    assert_eq!(job.username.as_deref(), Some("alice"));
    assert_eq!(job.time_created, 42);
    assert_eq!(job.time_started, None);
    assert_eq!(job.time_finished, None);
    assert_eq!(job.errors, None);
}

#[test]
fn interrupted_job_comes_first() {
    let mut q = JobQueue::new();
    let a = Job::add_at(&mut q, &series("B000000001"), None, 1).unwrap();
    let b = Job::add_at(&mut q, &series("B000000002"), None, 2).unwrap();
    // b was left being processed, a is still queued and older
    let mut jb = Job::fetch_all(&q).jobs.remove(0);
    assert_eq!(jb.id, b);
    jb.mark_as_processing_at(&mut q, 3).unwrap();
    assert_eq!(Job::fetch_next(&q).unwrap().id, b);
    assert_ne!(a, b);
}

#[test]
fn jobs_come_out_in_creation_order() {
    let mut q = JobQueue::new();
    // created out of order on purpose: the queue orders by creation time
    let j3 = Job::add_at(&mut q, &series("B000000003"), None, 30).unwrap();
    let j1 = Job::add_at(&mut q, &series("B000000001"), None, 10).unwrap();
    let j2 = Job::add_at(&mut q, &series("B000000002"), None, 20).unwrap();
    let mut seen = Vec::new();
    while let Some(mut job) = Job::fetch_next(&q) {
        seen.push(job.id);
        job.mark_as_processing_at(&mut q, 100).unwrap();
        job.mark_as_successful_at(&mut q, 101).unwrap();
    }
    assert_eq!(seen, vec![j1, j2, j3]);
    let all = Job::fetch_all(&q).jobs;
    let newest_first: Vec<i32> = all.iter().map(|j| j.id).collect();
    assert_eq!(newest_first, vec![j3, j2, j1]);
}

#[test]
fn transitions_update_table_and_handle() {
    let mut q = JobQueue::new();
    Job::add_at(&mut q, &series("B000000001"), None, 1).unwrap();
    let mut job = Job::fetch_next(&q).unwrap();
    job.mark_as_processing_at(&mut q, 5).unwrap();
    assert_eq!(job.status, JobStatus::Processing);
    assert_eq!(job.time_started, Some(5));
    // resuming after a crash keeps the first start time
    job.mark_as_processing_at(&mut q, 9).unwrap();
    assert_eq!(job.time_started, Some(5));
    job.mark_as_failed_at(&mut q, "boom".to_string(), 11).unwrap();
    assert_eq!(job.status, JobStatus::Failed);
    assert_eq!(job.errors.as_deref(), Some("boom"));
    assert_eq!(job.time_finished, Some(11));
    assert_eq!(q.get(0).status, JobStatus::Failed);
    assert_eq!(q.get(0).errors.as_deref(), Some("boom"));
    assert!(Job::fetch_next(&q).is_none());
}

#[test]
fn refused_transitions() {
    let mut q = JobQueue::new();
    Job::add_at(&mut q, &series("B000000001"), None, 1).unwrap();
    Job::add_at(&mut q, &series("B000000002"), None, 2).unwrap();
    let all = Job::fetch_all(&q).jobs;
    let mut second = Job::fetch_all(&q).jobs.remove(0);
    let mut first = Job::fetch_all(&q).jobs.remove(1);
    assert_eq!(all.len(), 2);
    assert_eq!(first.mark_as_successful_at(&mut q, 3), Err(QueueError::NotProcessing));
    first.mark_as_processing_at(&mut q, 3).unwrap();
    assert_eq!(second.mark_as_processing_at(&mut q, 4), Err(QueueError::Busy));
    first.mark_as_successful_at(&mut q, 5).unwrap();
    assert_eq!(first.mark_as_processing_at(&mut q, 6), Err(QueueError::AlreadyFinished));
    let mut ghost_job = Job::fetch_all(&q).jobs.remove(0);
    ghost_job.id = 999;
    assert_eq!(ghost_job.mark_as_processing_at(&mut q, 7), Err(QueueError::NoSuchJob));
    assert_eq!(QueueError::Busy.message(), "Another job is being processed");
}

#[test]
fn status_names() {
    assert_eq!(JobStatus::Queued.as_str(), "QUEUED");
    assert_eq!(JobStatus::Processing.as_str(), "PROCESSING");
    assert_eq!(JobStatus::Successful.as_str(), "SUCCESSFUL");
    assert_eq!(JobStatus::Failed.as_str(), "FAILED");
}

#[test]
fn enqueue_series_checks_the_id() {
    let mut q = JobQueue::new();
    assert!(matches!(
        enqueue_series_at(&mut q, " B09FSCHFGK ", None, 1),
        Err(EnqueueError::NotAnAsin)
    ));
    assert_eq!(q.len(), 0);
    let r = enqueue_series_at(&mut q, "B09FSCHFGK", None, 1).unwrap();
    let again = enqueue_series_at(&mut q, "B09FSCHFGK", None, 2).unwrap();
    assert_eq!(r.job_id, again.job_id);
    assert_eq!(q.len(), 1);
}

#[test]
fn enqueue_all_tracked_series() {
    let mut repo = Repository::new();
    BookSeries { asin: "B000000001".to_string(), name: "One".to_string(), time_first_seen: 1 }.save(&mut repo);
    BookSeries { asin: "B000000002".to_string(), name: "Two".to_string(), time_first_seen: 1 }.save(&mut repo);
    let mut q = JobQueue::new();
    enqueue_all_series_at(&repo, &mut q, None, 10).unwrap();
    enqueue_all_series_at(&repo, &mut q, None, 11).unwrap();
    assert_eq!(q.len(), 2);
    assert_eq!(q.get(0).params, "{\"variant\":\"Series\",\"asin\":\"B000000001\"}");
    assert_eq!(q.get(1).params, "{\"variant\":\"Series\",\"asin\":\"B000000002\"}");
}

#[test]
fn server_error_carries_message() {
    match ApiResponse::from_error("disk full".to_string()) {
        ApiResponse::ServerError { message } => assert_eq!(message, "disk full"),
        _ => panic!("expected a server error"),
    }
}

fn row(id: i32, params: &str, status: JobStatus, time_created: i64) -> Job {
    Job {
        id,
        params: params.to_string(),
        status,
        errors: None,
        username: None,
        time_created,
        time_started: None,
        time_finished: None,
    }
}

#[test]
fn restore_accepts_a_consistent_table() {
    let rows = vec![
        row(1, "a", JobStatus::Successful, 1),
        row(3, "b", JobStatus::Processing, 2),
        row(2, "c", JobStatus::Queued, 2),
    ];
    let mut q = JobQueue::restore(rows).unwrap();
    assert_eq!(q.len(), 3);
    // the interrupted job is taken up first
    assert_eq!(Job::fetch_next(&q).unwrap().id, 3);
    // the next id follows the largest
    let id = Job::add_at(&mut q, &series("B000000009"), None, 9).unwrap();
    assert_eq!(id, 4);
}

#[test]
fn restore_refuses_a_broken_table() {
    assert!(JobQueue::restore(vec![row(1, "a", JobStatus::Queued, 1), row(1, "b", JobStatus::Queued, 2)]).is_none());
    assert!(JobQueue::restore(vec![row(1, "a", JobStatus::Queued, 2), row(2, "b", JobStatus::Queued, 1)]).is_none());
    assert!(JobQueue::restore(vec![row(1, "a", JobStatus::Queued, 1), row(2, "a", JobStatus::Queued, 2)]).is_none());
    assert!(JobQueue::restore(vec![
        row(1, "a", JobStatus::Processing, 1),
        row(2, "b", JobStatus::Processing, 2)
    ])
    .is_none());
    assert!(JobQueue::restore(vec![row(0, "a", JobStatus::Queued, 1)]).is_none());
    assert!(JobQueue::restore(vec![row(1, "a", JobStatus::Failed, 1), row(2, "a", JobStatus::Queued, 2)]).is_some());
}

#[test]
fn restore_repository() {
    let s = |asin: &str| BookSeries { asin: asin.to_string(), name: "n".to_string(), time_first_seen: 1 };
    assert!(Repository::restore(vec![s("S1"), s("S2")], vec![]).is_some());
    assert!(Repository::restore(vec![s("S1"), s("S1")], vec![]).is_none());
}

#[test]
fn ids_run_out() {
    let mut q = JobQueue::restore(vec![row(i32::MAX, "a", JobStatus::Successful, 1)]).unwrap();
    assert_eq!(Job::add_at(&mut q, &series("B000000001"), None, 2), Err(QueueError::IdsExhausted));
    assert!(matches!(
        enqueue_series_at(&mut q, "B000000001", None, 3),
        Err(EnqueueError::Queue(QueueError::IdsExhausted))
    ));
    assert_eq!(q.len(), 1);
}

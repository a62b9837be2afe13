use dlmgr::builder::ConcurrencyBehaviour;
use dlmgr::error::{DlMgrCompletionError, DlMgrSetupError, DownloadWorkerError};
use dlmgr::task::{settle_completion, DownloadTask, ProgressProvider, TaskStats};
use dlmgr::validate::{
    first_failure, plan_download, sequential_outcome, DownloadPlan, UrlCheck, ValidateAttempts,
};
use dlmgr::worker::RequestChunkError;
use std::sync::Arc;

fn check(len: u64, ranges: bool) -> UrlCheck {
    UrlCheck { content_length: len, supports_ranges: ranges }
}

#[test]
fn ranged_servers_download_concurrently() {
    let c = [check(10, true), check(10, true)];
    assert_eq!(plan_download(&c, ConcurrencyBehaviour::Prefer).unwrap(), DownloadPlan::Concurrent { content_length: 10 });
    assert_eq!(plan_download(&c, ConcurrencyBehaviour::Require).unwrap(), DownloadPlan::Concurrent { content_length: 10 });
    assert_eq!(plan_download(&c, ConcurrencyBehaviour::Disabled).unwrap(), DownloadPlan::Sequential { content_length: 10 });
}

#[test]
fn without_ranges_prefer_falls_back_and_require_refuses() {
    let c = [check(1048576, true), check(1048576, false)];
    assert_eq!(
        plan_download(&c, ConcurrencyBehaviour::Prefer).unwrap(),
        DownloadPlan::Sequential { content_length: 1048576 }
    );
    assert!(matches!(
        plan_download(&c, ConcurrencyBehaviour::Require),
        Err(DlMgrSetupError::RangeRequestsUnsupported)
    ));
}

#[test]
fn servers_must_agree_on_length() {
    let c = [check(10, true), check(11, true)];
    assert!(matches!(
        plan_download(&c, ConcurrencyBehaviour::Prefer),
        Err(DlMgrSetupError::InconsistentContentLength)
    ));
    assert!(matches!(
        plan_download(&[], ConcurrencyBehaviour::Prefer),
        Err(DlMgrSetupError::NoContentLengthHeader)
    ));
}

#[test]
fn validation_retries_with_growing_pause() {
    let mut a = ValidateAttempts::new();
    assert_eq!(a.record_failure(3), Some(500));
    assert_eq!(a.record_failure(3), Some(1000));
    assert_eq!(a.record_failure(3), None);
    let mut once = ValidateAttempts::new();
    assert_eq!(once.record_failure(0), None);
}

#[test]
fn first_failure_stands() {
    let a = first_failure(Ok(()), Err(DlMgrCompletionError::CompletionHandleDropped));
    assert!(matches!(a, Err(DlMgrCompletionError::CompletionHandleDropped)));
    let b = first_failure(a, Ok(()));
    assert!(matches!(b, Err(DlMgrCompletionError::CompletionHandleDropped)));
    assert!(first_failure(Ok(()), Ok(())).is_ok());
}

#[test]
fn sequential_failure_is_fatal_for_worker_zero() {
    assert!(sequential_outcome(Ok(())).is_ok());
    let r = sequential_outcome(Err(RequestChunkError::SubmitChunkError));
    assert!(matches!(
        r,
        Err(DlMgrCompletionError::TaskFailed(DownloadWorkerError::Fatal(0, RequestChunkError::SubmitChunkError)))
    ));
}

#[test]
fn dropped_sender_settles_as_dropped_handle() {
    let (tx, rx) = tokio::sync::oneshot::channel::<Result<(), DlMgrCompletionError>>();
    drop(tx);
    let r = settle_completion(rx.blocking_recv());
    assert!(matches!(r, Err(DlMgrCompletionError::CompletionHandleDropped)));
    let (tx, rx) = tokio::sync::oneshot::channel::<Result<(), DlMgrCompletionError>>();
    tx.send(Ok(())).unwrap();
    assert!(settle_completion(rx.blocking_recv()).is_ok());
}

#[test]
fn progress_reads_the_counters() {
    let stats = Arc::new(TaskStats::new());
    let (_tx, rx) = tokio::sync::oneshot::channel();
    let task = DownloadTask { content_length: 1024 * 1024, task_stats: stats.clone(), completion_handle: rx };
    assert_eq!(task.content_length(), 1024 * 1024);
    let p: ProgressProvider = task.progress_provider();
    assert_eq!(p.content_length(), 1024 * 1024);
    assert_eq!(p.bytes_downloaded(), 0);
    stats.bytes_downloaded.fetch_add(512, std::sync::atomic::Ordering::SeqCst);
    assert_eq!(p.bytes_downloaded(), 512);
}

#[test]
fn plan_ignores_answer_order() {
    let a = [check(7, true), check(7, false), check(7, true)];
    let b = [check(7, false), check(7, true), check(7, true)];
    for behaviour in [ConcurrencyBehaviour::Prefer, ConcurrencyBehaviour::Disabled] {
        assert_eq!(plan_download(&a, behaviour).unwrap(), plan_download(&b, behaviour).unwrap());
    }
}

#[test]
fn progress_clone_reads_the_same_download() {
    let stats = Arc::new(TaskStats::new());
    let p = ProgressProvider { content_length: 77, task_stats: stats.clone() };
    let q = p.clone();
    assert_eq!(q.content_length(), 77);
    stats.bytes_downloaded.fetch_add(3, std::sync::atomic::Ordering::SeqCst);
    assert_eq!(q.bytes_downloaded(), 3);
}

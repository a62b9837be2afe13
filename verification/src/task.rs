//! A running download, as its caller sees it.
use vstd::prelude::*;
use std::sync::Arc;
use std::sync::atomic::{AtomicU64, Ordering};
use crate::error::DlMgrCompletionError;

verus! {

#[verifier::external_type_specification]
#[verifier::external_body]
#[verifier::reject_recursive_types(T)]
pub struct ExOneshotReceiver<T>(tokio::sync::oneshot::Receiver<T>);

#[verifier::external_type_specification]
#[verifier::external_body]
pub struct ExRecvError(tokio::sync::oneshot::error::RecvError);

/// Counters that the tasks of a download update while it runs.
#[derive(Debug)]
pub struct TaskStats {
    pub bytes_downloaded: AtomicU64,
    pub cached_bytes: AtomicU64,
}

impl TaskStats {
    /// Counters at zero.
    pub fn new() -> (r: Self) {
        TaskStats { bytes_downloaded: AtomicU64::new(0), cached_bytes: AtomicU64::new(0) }
    }
}

/// Reads the progress of a running download.
#[derive(Debug)]
pub struct ProgressProvider {
    pub content_length: u64,
    pub task_stats: Arc<TaskStats>,
}

impl Clone for ProgressProvider {
    /// Another handle on the same download: same length, same counters.
    fn clone(&self) -> (r: Self)
        ensures
            r.content_length == self.content_length,
            r.task_stats == self.task_stats,
    {
        ProgressProvider { content_length: self.content_length, task_stats: self.task_stats.clone() }
    }
}

impl ProgressProvider {
    /// How many bytes have arrived so far. The counter moves while the
    /// download runs, so no value is promised.
    pub fn bytes_downloaded(&self) -> u64 {
        self.task_stats.bytes_downloaded.load(Ordering::SeqCst)
    }

    /// The size of the file being downloaded.
    pub fn content_length(&self) -> (r: u64)
        ensures
            r == self.content_length,
    {
        self.content_length
    }
}

/// A download that was set up and runs in the background.
pub struct DownloadTask {
    pub content_length: u64,
    pub task_stats: Arc<TaskStats>,
    pub completion_handle: tokio::sync::oneshot::Receiver<Result<(), DlMgrCompletionError>>,
}

impl DownloadTask {
    /// The size of the file being downloaded, as the servers reported it.
    pub fn content_length(&self) -> (r: u64)
        ensures
            r == self.content_length,
    {
        self.content_length
    }

    /// A handle to follow the progress of this download.
    pub fn progress_provider(&self) -> (r: ProgressProvider)
        ensures
            r.content_length == self.content_length,
            r.task_stats == self.task_stats,
    {
        ProgressProvider { content_length: self.content_length, task_stats: self.task_stats.clone() }
    }
}

/// The outcome of a download from what its completion handle received: the
/// reported outcome, or `CompletionHandleDropped` when the sender went away.
pub fn settle_completion(
    received: Result<Result<(), DlMgrCompletionError>, tokio::sync::oneshot::error::RecvError>,
) -> (r: Result<(), DlMgrCompletionError>)
    ensures
        received is Err ==> r matches Err(DlMgrCompletionError::CompletionHandleDropped),
        received is Ok ==> r == received->Ok_0,
{
    match received {
        Ok(outcome) => outcome,
        Err(_) => Err(DlMgrCompletionError::CompletionHandleDropped),
    }
}

} // verus!

//! Deciding, from what the servers answered, how a download proceeds and how it ended.
use vstd::prelude::*;
use crate::builder::ConcurrencyBehaviour;
use crate::error::{DlMgrCompletionError, DlMgrSetupError, DownloadWorkerError};
use crate::worker::RequestChunkError;

verus! {

/// What one server said about the file.
#[derive(Clone, Copy, Debug, PartialEq, Eq, Structural)]
pub struct UrlCheck {
    pub content_length: u64,
    pub supports_ranges: bool,
}

/// How a download fetches the file.
#[derive(Clone, Copy, Debug, PartialEq, Eq, Structural)]
pub enum DownloadPlan {
    /// Several ranges at once, from every server.
    Concurrent { content_length: u64 },
    /// One request for the whole file, to the first server.
    Sequential { content_length: u64 },
}

/// Every server reports the same length.
pub open spec fn lengths_agree(checks: Seq<UrlCheck>) -> bool {
    forall|i: int|
        0 <= i < checks.len() ==> #[trigger] checks[i].content_length == checks[0].content_length
}

/// Every server takes range requests.
pub open spec fn all_support_ranges(checks: Seq<UrlCheck>) -> bool {
    forall|i: int| 0 <= i < checks.len() ==> #[trigger] checks[i].supports_ranges
}

/// The plan for a download whose servers answered `checks`: no servers or
/// disagreeing lengths are errors; otherwise the download is concurrent when
/// allowed and every server takes ranges, sequential when concurrency is
/// disabled or merely preferred, and refused when required but not possible.
pub fn plan_download(checks: &[UrlCheck], behaviour: ConcurrencyBehaviour) -> (r: Result<
    DownloadPlan,
    DlMgrSetupError,
>)
    ensures
        checks@.len() == 0 ==> r matches Err(DlMgrSetupError::NoContentLengthHeader),
        checks@.len() > 0 && !lengths_agree(checks@) ==> r matches Err(
            DlMgrSetupError::InconsistentContentLength,
        ),
        checks@.len() > 0 && lengths_agree(checks@) ==> {
            let n = checks@[0].content_length;
            &&& behaviour == ConcurrencyBehaviour::Disabled ==> r == Ok::<
                DownloadPlan,
                DlMgrSetupError,
            >(DownloadPlan::Sequential { content_length: n })
            &&& behaviour != ConcurrencyBehaviour::Disabled && all_support_ranges(checks@) ==> r
                == Ok::<DownloadPlan, DlMgrSetupError>(
                DownloadPlan::Concurrent { content_length: n },
            )
            &&& behaviour == ConcurrencyBehaviour::Prefer && !all_support_ranges(checks@) ==> r
                == Ok::<DownloadPlan, DlMgrSetupError>(
                DownloadPlan::Sequential { content_length: n },
            )
            &&& behaviour == ConcurrencyBehaviour::Require && !all_support_ranges(checks@) ==> (
            r matches Err(DlMgrSetupError::RangeRequestsUnsupported))
        },
{
    if checks.len() == 0 {
        return Err(DlMgrSetupError::NoContentLengthHeader);
    }
    let content_length = checks[0].content_length;
    let mut ranges = true;
    let mut i: usize = 0;
    while i < checks.len()
        invariant
            0 < checks@.len(),
            i <= checks@.len(),
            content_length == checks@[0].content_length,
            forall|k: int|
                0 <= k < i ==> #[trigger] checks@[k].content_length == content_length,
            ranges <==> forall|k: int| 0 <= k < i ==> #[trigger] checks@[k].supports_ranges,
        decreases checks@.len() - i,
    {
        if checks[i].content_length != content_length {
            return Err(DlMgrSetupError::InconsistentContentLength);
        }
        ranges = ranges && checks[i].supports_ranges;
        i = i + 1;
    }
    match behaviour {
        ConcurrencyBehaviour::Disabled => Ok(DownloadPlan::Sequential { content_length }),
        ConcurrencyBehaviour::Prefer => {
            if ranges {
                Ok(DownloadPlan::Concurrent { content_length })
            } else {
                Ok(DownloadPlan::Sequential { content_length })
            }
        },
        ConcurrencyBehaviour::Require => {
            if ranges {
                Ok(DownloadPlan::Concurrent { content_length })
            } else {
                Err(DlMgrSetupError::RangeRequestsUnsupported)
            }
        },
    }
}

/// Every answer in `a` is also in `b`.
pub open spec fn answers_within(a: Seq<UrlCheck>, b: Seq<UrlCheck>) -> bool {
    forall|i: int| 0 <= i < a.len() ==> #[trigger] b.contains(a[i])
}

/// The plan does not depend on the order in which the servers answered: two
/// lists of the same answers agree on the lengths, on range support, and on
/// the length of the file.
pub proof fn lemma_plan_ignores_answer_order(a: Seq<UrlCheck>, b: Seq<UrlCheck>)
    requires
        a.len() > 0,
        answers_within(a, b),
        answers_within(b, a),
    ensures
        lengths_agree(a) == lengths_agree(b),
        all_support_ranges(a) == all_support_ranges(b),
        lengths_agree(a) ==> a[0].content_length == b[0].content_length,
{
    assert(b.contains(a[0]));
    assert(b.len() > 0) by {
        let j = choose|j: int| 0 <= j < b.len() && b[j] == a[0];
    }
    assert(a.contains(b[0]));
    if lengths_agree(a) {
        let j0 = choose|j: int| 0 <= j < a.len() && a[j] == b[0];
        assert(a[j0].content_length == a[0].content_length);
        assert forall|i: int| 0 <= i < b.len() implies #[trigger] b[i].content_length
            == b[0].content_length by {
            assert(a.contains(b[i]));
            let j = choose|j: int| 0 <= j < a.len() && a[j] == b[i];
            assert(a[j].content_length == a[0].content_length);
        }
    }
    if lengths_agree(b) {
        let j0 = choose|j: int| 0 <= j < b.len() && b[j] == a[0];
        assert(b[j0].content_length == b[0].content_length);
        assert forall|i: int| 0 <= i < a.len() implies #[trigger] a[i].content_length
            == a[0].content_length by {
            assert(b.contains(a[i]));
            let j = choose|j: int| 0 <= j < b.len() && b[j] == a[i];
            assert(b[j].content_length == b[0].content_length);
        }
    }
    if all_support_ranges(a) {
        assert forall|i: int| 0 <= i < b.len() implies #[trigger] b[i].supports_ranges by {
            assert(a.contains(b[i]));
            let j = choose|j: int| 0 <= j < a.len() && a[j] == b[i];
            assert(a[j].supports_ranges);
        }
    }
    if all_support_ranges(b) {
        assert forall|i: int| 0 <= i < a.len() implies #[trigger] a[i].supports_ranges by {
            assert(b.contains(a[i]));
            let j = choose|j: int| 0 <= j < b.len() && b[j] == a[i];
            assert(b[j].supports_ranges);
        }
    }
}

/// The pause before retrying a server, per failure so far, in milliseconds.
pub const VALIDATE_BACKOFF_STEP_MILLIS: u64 = 500;

/// The failures of the requests that check one server.
pub struct ValidateAttempts {
    failures: u8,
}

impl ValidateAttempts {
    pub closed spec fn spec_failures(&self) -> u8 {
        self.failures
    }

    pub fn new() -> (r: Self)
        ensures
            r.spec_failures() == 0,
    {
        ValidateAttempts { failures: 0 }
    }

    /// Counts a failure: `None` when the server has now failed `retry_limit`
    /// times, otherwise how long to wait before the next try.
    pub fn record_failure(&mut self, retry_limit: u8) -> (r: Option<u64>)
        ensures
            final(self).spec_failures() == if old(self).spec_failures() < 255 {
                old(self).spec_failures() + 1
            } else {
                255
            },
            final(self).spec_failures() >= retry_limit ==> r is None,
            final(self).spec_failures() < retry_limit ==> r == Some(
                (VALIDATE_BACKOFF_STEP_MILLIS * final(self).spec_failures()) as u64,
            ),
    {
        if self.failures < 255 {
            self.failures = self.failures + 1;
        }
        if self.failures >= retry_limit {
            None
        } else {
            Some(VALIDATE_BACKOFF_STEP_MILLIS * self.failures as u64)
        }
    }
}

#[verifier::external_type_specification]
#[verifier::external_body]
pub struct ExJoinError(tokio::task::JoinError);

/// The outcome of one task of a download, from what joining it gave.
pub fn task_outcome(joined: Result<Result<(), DownloadWorkerError>, tokio::task::JoinError>) -> (r:
    Result<(), DlMgrCompletionError>)
    ensures
        joined matches Ok(Ok(())) ==> r is Ok,
        joined matches Ok(Err(e)) ==> r == Err::<(), DlMgrCompletionError>(
            DlMgrCompletionError::TaskFailed(e),
        ),
        joined matches Err(j) ==> r == Err::<(), DlMgrCompletionError>(
            DlMgrCompletionError::TaskPanicked(j),
        ),
{
    match joined {
        Ok(Ok(())) => Ok(()),
        Ok(Err(e)) => Err(DlMgrCompletionError::TaskFailed(e)),
        Err(j) => Err(DlMgrCompletionError::TaskPanicked(j)),
    }
}

/// The outcome of a download so far, after one more task ended: the first
/// failure stands.
pub fn first_failure(
    so_far: Result<(), DlMgrCompletionError>,
    next: Result<(), DlMgrCompletionError>,
) -> (r: Result<(), DlMgrCompletionError>)
    ensures
        so_far is Err ==> r == so_far,
        so_far is Ok ==> r == next,
{
    match so_far {
        Err(e) => Err(e),
        Ok(()) => next,
    }
}

/// The outcome of a sequential download from the outcome of its one request.
pub fn sequential_outcome(streamed: Result<(), RequestChunkError>) -> (r: Result<
    (),
    DlMgrCompletionError,
>)
    ensures
        streamed is Ok ==> r is Ok,
        streamed matches Err(e) ==> r == Err::<(), DlMgrCompletionError>(
            DlMgrCompletionError::TaskFailed(DownloadWorkerError::Fatal(0, e)),
        ),
{
    match streamed {
        Ok(()) => Ok(()),
        Err(e) => Err(DlMgrCompletionError::TaskFailed(DownloadWorkerError::Fatal(0, e))),
    }
}

} // verus!

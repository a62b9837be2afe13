//! What a download worker decides while it fetches one range.
use vstd::prelude::*;
use crate::planner::DlWorkerTask;
use crate::urlset::{url_index, UrlSet};

verus! {

#[verifier::external_type_specification]
#[verifier::external_body]
pub struct ExOwnedSemaphorePermit(tokio::sync::OwnedSemaphorePermit);

/// Why a request for one range failed.
#[derive(Debug)]
pub enum RequestChunkError {
    Reqwest(reqwest::Error),
    SubmitChunkError,
    SplitPermitError(String),
    ExcessBytes {
        url: url::Url,
        wtask_offset: u64,
        wtask_len: u64,
        offset: u64,
        len: u64,
        received_len: u64,
    },
}

/// How many permits of the download's buffer budget a permit holds
/// (what `OwnedSemaphorePermit::num_permits` returns).
pub uninterp spec fn permits_held(permit: tokio::sync::OwnedSemaphorePermit) -> nat;

/// Calls `OwnedSemaphorePermit::num_permits`, which returns the count the permit holds.
#[verifier::external_body]
fn num_permits(permit: &tokio::sync::OwnedSemaphorePermit) -> (r: usize)
    ensures
        r == permits_held(*permit),
{
    permit.num_permits()
}

/// Calls `OwnedSemaphorePermit::split`: when `n` does not exceed the permits held,
/// it moves `n` of them into a new permit; otherwise it returns `None` and
/// leaves the permit as it was.
#[verifier::external_body]
fn split_permit(permit: &mut tokio::sync::OwnedSemaphorePermit, n: usize) -> (r: Option<
    tokio::sync::OwnedSemaphorePermit,
>)
    ensures
        n <= permits_held(*old(permit)) ==> {
            &&& r is Some
            &&& permits_held(r->Some_0) == n
            &&& permits_held(*final(permit)) == permits_held(*old(permit)) - n
        },
        n > permits_held(*old(permit)) ==> r is None && *final(permit) == *old(permit),
{
    permit.split(n)
}

/// The decimal digits of `n`, as text.
pub open spec fn decimal_chars(n: nat) -> Seq<char>
    decreases n,
{
    if n < 10 {
        seq![(48 + n) as char]
    } else {
        decimal_chars(n / 10) + seq![(48 + n % 10) as char]
    }
}

/// The message of a request for `requested` permits when `available` are left.
pub open spec fn shortage_text(requested: nat, available: nat) -> Seq<char> {
    "Not enough permits available. Requested="@ + decimal_chars(requested) + " avail="@
        + decimal_chars(available)
}

/// The message of a request for permits from an empty container.
pub open spec fn empty_container_text() -> Seq<char> {
    "permit_container already empty"@
}

/// The text of the decimal digit `d`.
fn digit_text(d: u64) -> (r: &'static str)
    requires
        d < 10,
    ensures
        r@ == seq![(48 + d) as char],
{
    proof {
        reveal_strlit("0");
        reveal_strlit("1");
        reveal_strlit("2");
        reveal_strlit("3");
        reveal_strlit("4");
        reveal_strlit("5");
        reveal_strlit("6");
        reveal_strlit("7");
        reveal_strlit("8");
        reveal_strlit("9");
    }
    if d == 0 {
        "0"
    } else if d == 1 {
        "1"
    } else if d == 2 {
        "2"
    } else if d == 3 {
        "3"
    } else if d == 4 {
        "4"
    } else if d == 5 {
        "5"
    } else if d == 6 {
        "6"
    } else if d == 7 {
        "7"
    } else if d == 8 {
        "8"
    } else {
        "9"
    }
}

/// `n` written in decimal, without leading zeros.
pub fn decimal_string(n: u64) -> (r: String)
    ensures
        r@ == decimal_chars(n as nat),
    decreases n,
{
    if n < 10 {
        digit_text(n).to_owned()
    } else {
        let mut s = decimal_string(n / 10);
        s.append(digit_text(n % 10));
        s
    }
}

/// The message of a request for `requested` permits when `available` are left.
fn shortage_message(requested: u64, available: u64) -> (r: String)
    ensures
        r@ == shortage_text(requested as nat, available as nat),
{
    let mut m = "Not enough permits available. Requested=".to_owned();
    m.append(decimal_string(requested).as_str());
    m.append(" avail=");
    m.append(decimal_string(available).as_str());
    proof {
        assert(m@ =~= shortage_text(requested as nat, available as nat));
    }
    m
}

/// The message of a request for permits from an empty container.
fn empty_container_message() -> (r: String)
    ensures
        r@ == empty_container_text(),
{
    "permit_container already empty".to_owned()
}

/// How many permits a container holds: none when it is empty.
pub open spec fn container_permits(c: Option<tokio::sync::OwnedSemaphorePermit>) -> nat {
    match c {
        Some(p) => permits_held(p),
        None => 0,
    }
}

/// Takes `count` permits out of `permit_container`, to travel with received
/// bytes; the container becomes empty once it holds no more permits.
pub fn split_permits(
    permit_container: &mut Option<tokio::sync::OwnedSemaphorePermit>,
    count: u64,
) -> (r: Result<tokio::sync::OwnedSemaphorePermit, RequestChunkError>)
    ensures
        count <= container_permits(*old(permit_container)) && (*old(permit_container)) is Some ==> {
            &&& r is Ok
            &&& permits_held(r->Ok_0) == count
            &&& container_permits(*final(permit_container)) == container_permits(
                *old(permit_container),
            ) - count
            &&& ((*final(permit_container)) is None <==> container_permits(*old(permit_container))
                == count)
        },
        !(count <= container_permits(*old(permit_container)) && (*old(permit_container)) is Some)
            ==> {
            &&& r matches Err(RequestChunkError::SplitPermitError(_))
            &&& *final(permit_container) == *old(permit_container)
        },
        (*old(permit_container)) is None ==> (r matches Err(RequestChunkError::SplitPermitError(m))
            && m@ == empty_container_text()),
        (*old(permit_container)) is Some && count > container_permits(*old(permit_container)) ==> (
        r matches Err(RequestChunkError::SplitPermitError(m)) && m@ == shortage_text(
            count as nat,
            container_permits(*old(permit_container)),
        )),
{
    match permit_container {
        Some(permits) => {
            if count as u128 > usize::MAX as u128 {
                let available = num_permits(permits) as u64;
                return Err(RequestChunkError::SplitPermitError(shortage_message(count, available)));
            }
            match split_permit(permits, count as usize) {
                Some(split) => {
                    if num_permits(permits) == 0 {
                        *permit_container = None;
                    }
                    Ok(split)
                },
                None => {
                    let available = num_permits(permits) as u64;
                    Err(RequestChunkError::SplitPermitError(shortage_message(count, available)))
                },
            }
        },
        None => Err(RequestChunkError::SplitPermitError(empty_container_message())),
    }
}

/// The longest a worker keeps retrying a range without any success, in nanoseconds.
pub const MAX_FAILURE_SPAN_NANOS: u128 = 1_800_000_000_000;

/// The backoff, in seconds, at which doubling stops.
pub const BACKOFF_CAP_SECS: u64 = 60;

/// What a worker does after one attempt at a range.
#[derive(Debug, Clone, Copy, PartialEq, Eq)]
pub enum RetryStep {
    /// Request the rest of the range again.
    Continue,
    /// The whole range was received.
    Complete,
    /// The server sent more bytes than were asked for.
    ExcessBytes { offset: u64, len: u64, received_len: u64 },
    /// Too long without any success: give up.
    GiveUp,
}

/// The progress of one worker through one range of the file.
pub struct ChunkRetry {
    task: DlWorkerTask,
    offset: u64,
    len: u64,
    attempt: usize,
    backoff_secs: u64,
}

impl ChunkRetry {
    pub closed spec fn spec_task(&self) -> DlWorkerTask {
        self.task
    }

    /// Where the part of the range still missing starts.
    pub closed spec fn spec_offset(&self) -> u64 {
        self.offset
    }

    /// How many bytes of the range are still missing.
    pub closed spec fn spec_len(&self) -> u64 {
        self.len
    }

    /// How many attempts were made since the last success.
    pub closed spec fn spec_attempt(&self) -> usize {
        self.attempt
    }

    pub closed spec fn spec_backoff_secs(&self) -> u64 {
        self.backoff_secs
    }

    pub closed spec fn wf(&self) -> bool {
        &&& self.task.offset <= self.offset
        &&& self.offset + self.len == self.task.offset + self.task.len
        &&& self.len > 0
        &&& self.task.offset + self.task.len <= u64::MAX
    }

    /// The state before the first attempt at `task`.
    pub fn new(task: DlWorkerTask) -> (r: Self)
        requires
            task.len > 0,
            task.offset + task.len <= u64::MAX,
        ensures
            r.wf(),
            r.spec_task() == task,
            r.spec_offset() == task.offset,
            r.spec_len() == task.len,
            r.spec_attempt() == 0,
            r.spec_backoff_secs() == 1,
    {
        ChunkRetry { task, offset: task.offset, len: task.len, attempt: 0, backoff_secs: 1 }
    }

    pub fn offset(&self) -> (r: u64)
        ensures
            r == self.spec_offset(),
    {
        self.offset
    }

    pub fn len(&self) -> (r: u64)
        ensures
            r == self.spec_len(),
    {
        self.len
    }

    /// How many attempts were made since the last success.
    pub fn attempt(&self) -> (r: usize)
        ensures
            r == self.spec_attempt(),
    {
        self.attempt
    }

    pub fn task(&self) -> (r: DlWorkerTask)
        ensures
            r == self.spec_task(),
    {
        self.task
    }

    /// Starts an attempt: returns its number (which picks the server to ask) and counts it.
    pub fn begin_attempt(&mut self) -> (r: usize)
        requires
            old(self).spec_attempt() < usize::MAX,
        ensures
            r == old(self).spec_attempt(),
            final(self).spec_attempt() == old(self).spec_attempt() + 1,
            final(self).spec_task() == old(self).spec_task(),
            final(self).spec_offset() == old(self).spec_offset(),
            final(self).spec_len() == old(self).spec_len(),
            final(self).spec_backoff_secs() == old(self).spec_backoff_secs(),
            old(self).wf() ==> final(self).wf(),
    {
        let a = self.attempt;
        self.attempt = self.attempt + 1;
        a
    }

    /// Starts an attempt of worker `worker_nr`: returns the server it asks,
    /// picked by the attempt's number (the attempts since the last success),
    /// and counts the attempt.
    pub fn begin_attempt_at(&mut self, url_set: &UrlSet, worker_nr: u8) -> (r: url::Url)
        requires
            old(self).spec_attempt() < usize::MAX,
            url_set.urls@.len() > 0,
        ensures
            r == url_set.urls@[url_index(worker_nr, old(self).spec_attempt(), url_set.urls@.len())],
            final(self).spec_attempt() == old(self).spec_attempt() + 1,
            final(self).spec_task() == old(self).spec_task(),
            final(self).spec_offset() == old(self).spec_offset(),
            final(self).spec_len() == old(self).spec_len(),
            final(self).spec_backoff_secs() == old(self).spec_backoff_secs(),
            old(self).wf() ==> final(self).wf(),
    {
        let attempt = self.begin_attempt();
        url_set.url(worker_nr, attempt)
    }

    /// An attempt delivered `received_len` bytes of the missing part.
    pub fn on_received(&mut self, received_len: u64) -> (r: RetryStep)
        requires
            old(self).wf(),
        ensures
            final(self).spec_task() == old(self).spec_task(),
            final(self).spec_attempt() == 0,
            final(self).spec_backoff_secs() == 1,
            received_len > old(self).spec_len() ==> r == (RetryStep::ExcessBytes {
                offset: old(self).spec_offset(),
                len: old(self).spec_len(),
                received_len,
            }),
            received_len == old(self).spec_len() ==> r == RetryStep::Complete,
            received_len < old(self).spec_len() ==> {
                &&& r == RetryStep::Continue
                &&& final(self).spec_offset() == old(self).spec_offset() + received_len
                &&& final(self).spec_len() == old(self).spec_len() - received_len
            },
            r == RetryStep::Continue ==> final(self).wf(),
            r != RetryStep::Continue ==> final(self).spec_offset() == old(self).spec_offset()
                && final(self).spec_len() == old(self).spec_len(),
    {
        self.attempt = 0;
        self.backoff_secs = 1;
        if received_len > self.len {
            RetryStep::ExcessBytes { offset: self.offset, len: self.len, received_len }
        } else if received_len == self.len {
            RetryStep::Complete
        } else {
            self.offset = self.offset + received_len;
            self.len = self.len - received_len;
            RetryStep::Continue
        }
    }

    /// An attempt failed in a way worth retrying, `elapsed_nanos` after the last success.
    pub fn on_request_error(&mut self, elapsed_nanos: u128) -> (r: RetryStep)
        ensures
            final(self).spec_task() == old(self).spec_task(),
            final(self).spec_offset() == old(self).spec_offset(),
            final(self).spec_len() == old(self).spec_len(),
            final(self).spec_attempt() == old(self).spec_attempt(),
            elapsed_nanos > MAX_FAILURE_SPAN_NANOS ==> r == RetryStep::GiveUp && *final(self)
                == *old(self),
            elapsed_nanos <= MAX_FAILURE_SPAN_NANOS ==> {
                &&& r == RetryStep::Continue
                &&& final(self).spec_backoff_secs() == if old(self).spec_backoff_secs()
                    < BACKOFF_CAP_SECS {
                    old(self).spec_backoff_secs() * 2
                } else {
                    old(self).spec_backoff_secs() as int
                }
            },
            old(self).wf() ==> final(self).wf(),
    {
        if elapsed_nanos > MAX_FAILURE_SPAN_NANOS {
            return RetryStep::GiveUp;
        }
        if self.backoff_secs < BACKOFF_CAP_SECS {
            self.backoff_secs = self.backoff_secs * 2;
        }
        RetryStep::Continue
    }
}

/// The progress of one response to a range request.
pub struct RangeResponse {
    request_offset: u64,
    len: u64,
    bytes_sent: u64,
}

impl RangeResponse {
    pub closed spec fn spec_request_offset(&self) -> u64 {
        self.request_offset
    }

    pub closed spec fn spec_len(&self) -> u64 {
        self.len
    }

    /// How many bytes of the response were passed on so far.
    pub closed spec fn spec_bytes_sent(&self) -> u64 {
        self.bytes_sent
    }

    pub closed spec fn wf(&self) -> bool {
        self.request_offset + self.len <= u64::MAX
    }

    /// A response to the request for `len` bytes from `request_offset` on.
    pub fn new(request_offset: u64, len: u64) -> (r: Self)
        requires
            request_offset + len <= u64::MAX,
        ensures
            r.wf(),
            r.spec_request_offset() == request_offset,
            r.spec_len() == len,
            r.spec_bytes_sent() == 0,
    {
        RangeResponse { request_offset, len, bytes_sent: 0 }
    }

    pub fn bytes_sent(&self) -> (r: u64)
        ensures
            r == self.spec_bytes_sent(),
    {
        self.bytes_sent
    }

    /// The response delivered `chunk_len` more bytes. An empty chunk is passed
    /// over. Any other chunk is forwarded at its file offset together with a
    /// permit of its own, split off `permit_container`: one permit per byte, so
    /// that each chunk's share of the buffer budget is released once that chunk
    /// has been handed on. A chunk is refused when the container is empty or
    /// holds fewer permits than the chunk has bytes. A response longer than the
    /// range is not refused here: the worker finds it when the response ends.
    pub fn on_body_chunk(
        &mut self,
        chunk_len: u64,
        permit_container: &mut Option<tokio::sync::OwnedSemaphorePermit>,
    ) -> (r: Result<Option<(u64, tokio::sync::OwnedSemaphorePermit)>, RequestChunkError>)
        requires
            old(self).wf(),
            0 < chunk_len <= container_permits(*old(permit_container)) ==> {
                &&& old(self).spec_request_offset() + old(self).spec_bytes_sent() <= u64::MAX
                &&& old(self).spec_bytes_sent() + chunk_len <= u64::MAX
            },
        ensures
            final(self).wf(),
            final(self).spec_request_offset() == old(self).spec_request_offset(),
            final(self).spec_len() == old(self).spec_len(),
            chunk_len == 0 ==> (r matches Ok(None) && *final(self) == *old(self)
                && *final(permit_container) == *old(permit_container)),
            chunk_len > 0 && (*old(permit_container)) is None ==> {
                &&& r matches Err(RequestChunkError::SplitPermitError(m))
                &&& m@ == empty_container_text()
            },
            chunk_len > 0 && (*old(permit_container)) is Some && chunk_len > container_permits(
                *old(permit_container),
            ) ==> (r matches Err(RequestChunkError::SplitPermitError(m)) && m@ == shortage_text(
                chunk_len as nat,
                container_permits(*old(permit_container)),
            )),
            r is Err ==> *final(self) == *old(self) && *final(permit_container) == *old(
                permit_container,
            ),
            0 < chunk_len <= container_permits(*old(permit_container)) ==> {
                &&& r matches Ok(Some((offset, p)))
                &&& offset == old(self).spec_request_offset() + old(self).spec_bytes_sent()
                &&& permits_held(p) == chunk_len
                &&& container_permits(*final(permit_container)) == container_permits(
                    *old(permit_container),
                ) - chunk_len
                &&& ((*final(permit_container)) is None <==> container_permits(
                    *old(permit_container),
                ) == chunk_len)
                &&& final(self).spec_bytes_sent() == old(self).spec_bytes_sent() + chunk_len
            },
    {
        if chunk_len == 0 {
            return Ok(None);
        }
        match split_permits(permit_container, chunk_len) {
            Ok(permits) => {
                let offset = self.request_offset + self.bytes_sent;
                self.bytes_sent = self.bytes_sent + chunk_len;
                Ok(Some((offset, permits)))
            },
            Err(e) => Err(e),
        }
    }

    /// The response ended: how many bytes it delivered, or an error when
    /// permits of the range are still unused.
    pub fn on_end(&self, permit_container: &Option<tokio::sync::OwnedSemaphorePermit>) -> (r: Result<
        u64,
        RequestChunkError,
    >)
        ensures
            permit_container is Some ==> (r matches Err(RequestChunkError::SubmitChunkError)),
            permit_container is None ==> r == Ok::<u64, RequestChunkError>(self.spec_bytes_sent()),
    {
        if permit_container.is_some() {
            Err(RequestChunkError::SubmitChunkError)
        } else {
            Ok(self.bytes_sent)
        }
    }

    /// The response broke off: what it delivered counts when it delivered
    /// anything; otherwise the request failed.
    pub fn on_error(&self) -> (r: Option<u64>)
        ensures
            self.spec_bytes_sent() > 0 ==> r == Some(self.spec_bytes_sent()),
            self.spec_bytes_sent() == 0 ==> r is None,
    {
        if self.bytes_sent > 0 {
            Some(self.bytes_sent)
        } else {
            None
        }
    }
}

} // verus!

//! Splitting a download of known length into consecutive byte ranges.
use vstd::prelude::*;
use crate::builder::DownloadProps;
use crate::error::DlMgrSetupError;

verus! {

/// One unit of work for a download worker: the byte range
/// `[offset, offset + len)` of the remote file.
#[derive(Debug, Clone, Copy, PartialEq, Eq)]
pub struct DlWorkerTask {
    pub offset: u64,
    pub len: u64,
}

/// The length of the task that starts at `offset`: a whole chunk, or what is
/// left of the file when less than a chunk remains.
pub open spec fn task_len(content_length: u64, chunk_size: u64, offset: u64) -> int {
    if content_length - offset < chunk_size {
        content_length - offset
    } else {
        chunk_size as int
    }
}

/// Every range handed out from `offset` on, in order.
pub open spec fn planned_tasks(content_length: u64, chunk_size: u64, offset: u64) -> Seq<DlWorkerTask>
    decreases content_length - offset,
{
    if chunk_size == 0 || offset >= content_length {
        Seq::empty()
    } else {
        let len = task_len(content_length, chunk_size, offset);
        seq![DlWorkerTask { offset, len: len as u64 }] + planned_tasks(
            content_length,
            chunk_size,
            (offset + len) as u64,
        )
    }
}

/// How many ranges may be in flight or waiting to be handed on, as a
/// download's settings ask for: the size given, or two per task.
pub open spec fn requested_buffer_chunks(props: DownloadProps) -> int {
    match props.max_buffer_size {
        Some(n) => n as int,
        None => props.task_count * 2,
    }
}

/// The largest number of permits a `tokio::sync::Semaphore` can hold.
pub open spec fn semaphore_permit_limit() -> int {
    (usize::MAX / 8) as int
}

/// Reads `tokio::sync::Semaphore::MAX_PERMITS`, which tokio defines as `usize::MAX >> 3`.
#[verifier::external_body]
fn semaphore_max_permits() -> (r: usize)
    ensures
        r == semaphore_permit_limit(),
{
    tokio::sync::Semaphore::MAX_PERMITS
}

/// How many permits, one per buffered byte, a budget of `chunks` ranges of
/// `chunk_size` bytes comes to, capped at what a semaphore can count.
pub open spec fn buffer_permit_count(chunks: int, chunk_size: int) -> int {
    if chunks * chunk_size < semaphore_permit_limit() {
        chunks * chunk_size
    } else {
        semaphore_permit_limit()
    }
}

/// How many permits of the buffer budget a worker takes before it fetches
/// `task`: one per byte of the range.
pub fn task_permits(task: &DlWorkerTask) -> (r: u32)
    requires
        task.len <= u32::MAX,
    ensures
        r == task.len,
{
    task.len as u32
}

/// Hands out the byte ranges of a file of `content_length` bytes, in order,
/// each at most `chunk_size` bytes long.
pub struct TaskProvider {
    chunk_size: u64,
    content_length: u64,
    offset: u64,
    max_buffer_chunks: usize,
}

impl TaskProvider {
    pub closed spec fn spec_chunk_size(&self) -> u64 {
        self.chunk_size
    }

    pub closed spec fn spec_content_length(&self) -> u64 {
        self.content_length
    }

    /// The buffer budget: at most this many ranges are fetched or wait to be handed on.
    pub closed spec fn spec_max_buffer_chunks(&self) -> usize {
        self.max_buffer_chunks
    }

    /// The ranges still to hand out, in order.
    pub open spec fn remaining_tasks(&self) -> Seq<DlWorkerTask> {
        planned_tasks(self.spec_content_length(), self.spec_chunk_size(), self.spec_offset())
    }

    /// The offset of the next range to hand out.
    pub closed spec fn spec_offset(&self) -> u64 {
        self.offset
    }

    pub closed spec fn wf(&self) -> bool {
        &&& self.chunk_size > 0
        &&& self.offset <= self.content_length
    }

    /// The provider for a file of `content_length` bytes with the given
    /// settings; refused when the buffer budget is more than a semaphore can count.
    pub fn new_provider(props: &DownloadProps, content_length: u64) -> (r: Result<
        Self,
        DlMgrSetupError,
    >)
        requires
            props.chunk_size > 0,
        ensures
            requested_buffer_chunks(*props) <= semaphore_permit_limit() ==> (r matches Ok(p) && {
                &&& p.wf()
                &&& p.spec_chunk_size() == props.chunk_size
                &&& p.spec_content_length() == content_length
                &&& p.spec_offset() == 0
                &&& p.spec_max_buffer_chunks() == requested_buffer_chunks(*props)
            }),
            requested_buffer_chunks(*props) > semaphore_permit_limit() ==> (r matches Err(
                DlMgrSetupError::InvalidMaxBufferSize,
            )),
            props.max_buffer_size is None ==> (r matches Ok(p) && p.spec_max_buffer_chunks() == 2
                * props.task_count),
            props.max_buffer_size is Some && props.max_buffer_size->Some_0 <= usize::MAX / 8 ==> (
            r matches Ok(p) && p.spec_max_buffer_chunks() == props.max_buffer_size->Some_0),
            props.max_buffer_size is Some && props.max_buffer_size->Some_0 > usize::MAX / 8 ==> (
            r matches Err(DlMgrSetupError::InvalidMaxBufferSize)),
    {
        let limit = semaphore_max_permits();
        let requested: usize = match props.max_buffer_size {
            Some(n) => n,
            None => {
                let chunks: u64 = props.task_count as u64 * 2;
                if chunks > limit as u64 {
                    return Err(DlMgrSetupError::InvalidMaxBufferSize);
                }
                chunks as usize
            },
        };
        if requested > limit {
            return Err(DlMgrSetupError::InvalidMaxBufferSize);
        }
        Ok(TaskProvider {
            chunk_size: props.chunk_size as u64,
            content_length,
            offset: 0,
            max_buffer_chunks: requested,
        })
    }

    /// The buffer budget, in ranges.
    pub fn max_buffer_chunks(&self) -> (r: usize)
        ensures
            r == self.spec_max_buffer_chunks(),
    {
        self.max_buffer_chunks
    }

    /// The buffer budget in permits, one per byte: room for the budgeted
    /// number of whole ranges, as far as a semaphore can count.
    pub fn buffer_permits(&self) -> (r: usize)
        ensures
            r == buffer_permit_count(
                self.spec_max_buffer_chunks() as int,
                self.spec_chunk_size() as int,
            ),
            r <= self.spec_max_buffer_chunks() * self.spec_chunk_size(),
            r <= usize::MAX / 8,
            r == self.spec_max_buffer_chunks() * self.spec_chunk_size() || r == usize::MAX / 8,
            self.spec_max_buffer_chunks() >= 1 && self.spec_chunk_size() <= usize::MAX / 8 ==> r
                >= self.spec_chunk_size(),
    {
        let limit = semaphore_max_permits();
        let chunks = self.max_buffer_chunks as u128;
        let size = self.chunk_size as u128;
        assert(chunks * size <= 0xffff_ffff_ffff_ffff * 0xffff_ffff_ffff_ffffu128) by (
        nonlinear_arith)
            requires
                chunks <= 0xffff_ffff_ffff_ffffu128,
                size <= 0xffff_ffff_ffff_ffffu128,
        ;
        let total: u128 = chunks * size;
        assert(self.max_buffer_chunks >= 1 ==> chunks * size >= size) by (nonlinear_arith)
            requires
                chunks == self.max_buffer_chunks,
        ;
        if total < limit as u128 {
            total as usize
        } else {
            limit
        }
    }

    /// The next range of the file, or `None` once the whole file was handed out.
    pub fn next_task(&mut self) -> (r: Option<DlWorkerTask>)
        requires
            old(self).wf(),
        ensures
            final(self).wf(),
            final(self).spec_chunk_size() == old(self).spec_chunk_size(),
            final(self).spec_content_length() == old(self).spec_content_length(),
            old(self).spec_offset() < old(self).spec_content_length() ==> {
                &&& r == Some(DlWorkerTask {
                    offset: old(self).spec_offset(),
                    len: task_len(
                        old(self).spec_content_length(),
                        old(self).spec_chunk_size(),
                        old(self).spec_offset(),
                    ) as u64,
                })
                &&& final(self).spec_offset() == old(self).spec_offset() + r.unwrap().len
            },
            old(self).spec_offset() >= old(self).spec_content_length() ==> {
                &&& r is None
                &&& final(self).spec_offset() == old(self).spec_offset()
            },
            final(self).spec_max_buffer_chunks() == old(self).spec_max_buffer_chunks(),
            old(self).remaining_tasks().len() == 0 ==> r is None,
            old(self).remaining_tasks().len() > 0 ==> {
                &&& r == Some(old(self).remaining_tasks()[0])
                &&& final(self).remaining_tasks() == old(self).remaining_tasks().drop_first()
            },
    {
        proof {
            let t = old(self).remaining_tasks();
            if self.offset < self.content_length {
                let len = task_len(self.content_length, self.chunk_size, self.offset);
                let rest = planned_tasks(self.content_length, self.chunk_size, (self.offset + len) as u64);
                assert(t == seq![DlWorkerTask { offset: self.offset, len: len as u64 }] + rest);
                assert(t.drop_first() =~= rest);
            }
        }
        if self.offset < self.content_length {
            let remaining_bytes = self.content_length - self.offset;
            let len = if remaining_bytes < self.chunk_size {
                remaining_bytes
            } else {
                self.chunk_size
            };
            let task = DlWorkerTask { offset: self.offset, len };
            self.offset = self.offset + len;
            Some(task)
        } else {
            None
        }
    }
}

/// The ranges planned from `offset` tile the rest of the file: the first starts
/// at `offset`, each starts where the one before ends, the last ends at the end
/// of the file, each holds between one byte and one chunk, every range but the
/// last holds a whole chunk, and there are as many as whole or partial chunks
/// fit in the rest of the file.
pub proof fn lemma_planned_tasks_tile(content_length: u64, chunk_size: u64, offset: u64)
    requires
        chunk_size > 0,
        offset <= content_length,
    ensures
        ({
            let t = planned_tasks(content_length, chunk_size, offset);
            &&& t.len() == (content_length - offset + chunk_size - 1) / (chunk_size as int)
            &&& t.len() == 0 <==> offset == content_length
            &&& t.len() > 0 ==> t[0].offset == offset && t.last().offset + t.last().len
                == content_length
            &&& forall|i: int| 0 <= i < t.len() ==> 0 < #[trigger] t[i].len <= chunk_size
            &&& forall|i: int| 0 <= i < t.len() - 1 ==> #[trigger] t[i].len == chunk_size
            &&& forall|i: int|
                0 <= i < t.len() - 1 ==> #[trigger] t[i + 1].offset == t[i].offset + t[i].len
            &&& forall|i: int|
                0 <= i < t.len() ==> #[trigger] t[i].offset == offset + i * chunk_size
                    && t[i].len == task_len(content_length, chunk_size, t[i].offset)
        }),
    decreases content_length - offset,
{
    let t = planned_tasks(content_length, chunk_size, offset);
    let rem = content_length - offset;
    if offset == content_length {
        assert((rem + chunk_size - 1) / (chunk_size as int) == 0) by (nonlinear_arith)
            requires
                rem == 0,
                chunk_size > 0,
        ;
    } else {
        let len = task_len(content_length, chunk_size, offset);
        let next = (offset + len) as u64;
        lemma_planned_tasks_tile(content_length, chunk_size, next);
        let rest = planned_tasks(content_length, chunk_size, next);
        assert(t == seq![DlWorkerTask { offset, len: len as u64 }] + rest);
        assert forall|i: int| 0 <= i < t.len() implies 0 < #[trigger] t[i].len <= chunk_size by {
            if i > 0 {
                assert(t[i] == rest[i - 1]);
            }
        }
        assert forall|i: int| 0 <= i < t.len() - 1 implies #[trigger] t[i].len == chunk_size by {
            if i > 0 {
                assert(t[i] == rest[i - 1]);
            } else {
                assert(rest.len() > 0);
            }
        }
        assert forall|i: int| 0 <= i < t.len() - 1 implies #[trigger] t[i + 1].offset == t[i].offset
            + t[i].len by {
            assert(t[i + 1] == rest[i]);
            if i > 0 {
                assert(t[i] == rest[i - 1]);
                let j = i - 1;
                assert(rest[j + 1].offset == rest[j].offset + rest[j].len);
            } else {
                assert(rest[0].offset == next);
            }
        }
        if rest.len() > 0 {
            assert(t.last() == rest.last());
        }
        assert forall|i: int| 0 <= i < t.len() implies #[trigger] t[i].offset == offset + i
            * chunk_size && t[i].len == task_len(content_length, chunk_size, t[i].offset) by {
            if i > 0 {
                assert(t[i] == rest[i - 1]);
                assert(rest[i - 1].offset == next + (i - 1) * chunk_size);
                assert(len == chunk_size);
                assert(next + (i - 1) * chunk_size == offset + i * chunk_size) by (nonlinear_arith)
                    requires
                        next == offset + chunk_size,
                ;
            }
        }
        let rrem = content_length - next;
        if rem <= chunk_size {
            assert(rrem == 0);
            assert((rem + chunk_size - 1) / (chunk_size as int) == 1) by (nonlinear_arith)
                requires
                    0 < rem <= chunk_size,
            ;
        } else {
            assert(rrem == rem - chunk_size);
            assert((rem + chunk_size - 1) / (chunk_size as int) == (rrem + chunk_size - 1) / (
            chunk_size as int) + 1) by (nonlinear_arith)
                requires
                    rrem == rem - chunk_size,
                    chunk_size > 0,
            ;
        }
    }
}

/// Byte `p` lies in one of the ranges `t`.
pub open spec fn in_some_task(t: Seq<DlWorkerTask>, p: int) -> bool {
    exists|i: int| 0 <= i < t.len() && #[trigger] t[i].offset <= p < t[i].offset + t[i].len
}

/// No two ranges planned from `offset` overlap, and every byte from `offset`
/// to the end of the file lies in exactly one of them.
pub proof fn lemma_planned_tasks_partition(content_length: u64, chunk_size: u64, offset: u64)
    requires
        chunk_size > 0,
        offset <= content_length,
    ensures
        ({
            let t = planned_tasks(content_length, chunk_size, offset);
            &&& forall|i: int, j: int|
                0 <= i < j < t.len() ==> #[trigger] t[i].offset + t[i].len <= #[trigger] t[j].offset
            &&& forall|p: int| offset <= p < content_length ==> #[trigger] in_some_task(t, p)
        }),
{
    lemma_planned_tasks_tile(content_length, chunk_size, offset);
    let t = planned_tasks(content_length, chunk_size, offset);
    let c = chunk_size as int;
    assert forall|i: int, j: int|
        0 <= i < j < t.len() implies #[trigger] t[i].offset + t[i].len <= #[trigger] t[j].offset by {
        assert(t[i].offset == offset + i * c);
        assert(t[j].offset == offset + j * c);
        assert(t[i].len <= c);
        assert(i * c + c <= j * c) by (nonlinear_arith)
            requires
                i < j,
                c > 0,
        ;
    }
    assert forall|p: int| offset <= p < content_length implies #[trigger] in_some_task(t, p) by {
        let d = p - offset;
        let i = d / c;
        assert(0 <= i && i * c <= d < i * c + c) by (nonlinear_arith)
            requires
                d >= 0,
                c > 0,
                i == d / c,
        ;
        let n = t.len() as int;
        assert(n == (content_length - offset + c - 1) / c);
        assert(i < n) by (nonlinear_arith)
            requires
                n == (content_length - offset + c - 1) / c,
                i * c <= d,
                d < content_length - offset,
                c > 0,
                i >= 0,
        ;
        assert(t[i].offset == offset + i * c);
        assert(t[i].len == task_len(content_length, chunk_size, t[i].offset));
    }
}

/// With no buffer size given, the budget is two ranges for every task; so a
/// download with at least one task has room for at least two ranges.
pub proof fn lemma_default_budget_is_two_ranges_per_task(props: DownloadProps)
    requires
        props.max_buffer_size is None,
    ensures
        requested_buffer_chunks(props) == 2 * props.task_count,
        props.task_count >= 1 ==> requested_buffer_chunks(props) >= 2,
        requested_buffer_chunks(props) <= semaphore_permit_limit(),
{
}

/// A given buffer size is the budget, whatever the task count.
pub proof fn lemma_given_budget_is_kept(props: DownloadProps, n: usize)
    requires
        props.max_buffer_size == Some(n),
    ensures
        requested_buffer_chunks(props) == n,
{
}

/// A budget of at least one range has permits for a whole range, as long as a
/// semaphore can count that many; and it never exceeds the ranges' bytes nor
/// what a semaphore can count.
pub proof fn lemma_budget_holds_a_range(chunks: int, chunk_size: int)
    requires
        chunks >= 1,
        0 <= chunk_size <= semaphore_permit_limit(),
    ensures
        buffer_permit_count(chunks, chunk_size) >= chunk_size,
        buffer_permit_count(chunks, chunk_size) <= chunks * chunk_size,
        buffer_permit_count(chunks, chunk_size) <= semaphore_permit_limit(),
{
    assert(chunks * chunk_size >= chunk_size) by (nonlinear_arith)
        requires
            chunks >= 1,
            chunk_size >= 0,
    ;
}

} // verus!

//! Putting the chunks of a concurrent download back in file order.
//!
//! Workers deliver byte ranges in any order; the reorderer hands them to the
//! sequential consumer strictly in order of offset, holding back every chunk
//! that arrives before the bytes in front of it.
use vstd::prelude::*;
use std::collections::HashMap;
use crate::error::ReorderChunkError;

verus! {

broadcast use vstd::std_specs::hash::group_hash_axioms;

/// The bytes of a run of chunks, one after the other.
pub open spec fn chunk_bytes<P>(s: Seq<(Vec<u8>, Option<P>)>) -> Seq<u8>
    decreases s.len(),
{
    if s.len() == 0 {
        Seq::empty()
    } else {
        chunk_bytes(s.drop_last()) + s.last().0@
    }
}

/// Position `i` lies inside a chunk that was accepted and is no longer held back.
pub open spec fn delivered_at(accepted: Map<u64, Seq<u8>>, held: Set<u64>, i: int) -> bool {
    exists|k: u64|
        #![trigger accepted[k]]
        accepted.contains_key(k) && !held.contains(k) && k <= i < k + accepted[k].len()
}

/// No two chunks that hold bytes and are no longer held back overlap.
pub open spec fn handed_on_disjoint(accepted: Map<u64, Seq<u8>>, held: Set<u64>) -> bool {
    forall|k1: u64, k2: u64|
        #![trigger accepted[k1], accepted[k2]]
        accepted.contains_key(k1) && accepted.contains_key(k2) && k1 != k2 && !held.contains(k1)
            && !held.contains(k2) && accepted[k1].len() > 0 && accepted[k2].len() > 0 ==> k1
            + accepted[k1].len() <= k2 || k2 + accepted[k2].len() <= k1
}

/// The chunks `accepted` tile `[0, end)`: no two overlap, and every position
/// before `end` lies in one of them.
pub open spec fn tiles(accepted: Map<u64, Seq<u8>>, end: int) -> bool {
    &&& forall|k1: u64, k2: u64|
        #![trigger accepted[k1], accepted[k2]]
        accepted.contains_key(k1) && accepted.contains_key(k2) && k1 != k2 ==> k1
            + accepted[k1].len() <= k2 || k2 + accepted[k2].len() <= k1
    &&& forall|i: int| 0 <= i < end ==> #[trigger] covered_at(accepted, i)
}

/// Position `i` lies inside one of the chunks `accepted`.
pub open spec fn covered_at(accepted: Map<u64, Seq<u8>>, i: int) -> bool {
    exists|k: u64| #![trigger accepted[k]] accepted.contains_key(k) && k <= i < k + accepted[k].len()
}

/// The file offset of entry `i` of a run of chunks handed on from `start`:
/// `start` plus the length of the entries before it.
pub open spec fn entry_key<P>(start: u64, out: Seq<(Vec<u8>, Option<P>)>, i: int) -> u64 {
    (start + chunk_bytes(out.take(i)).len()) as u64
}

/// The bytes of a log of chunks handed on, one after the other.
pub open spec fn log_bytes(log: Seq<(u64, Seq<u8>)>) -> Seq<u8>
    decreases log.len(),
{
    if log.len() == 0 {
        Seq::empty()
    } else {
        log_bytes(log.drop_last()) + log.last().1
    }
}

/// A run of chunks handed on from `start`, each with its file offset.
#[verifier::opaque]
pub open spec fn run_log<P>(start: u64, out: Seq<(Vec<u8>, Option<P>)>) -> Seq<(u64, Seq<u8>)> {
    Seq::new(out.len(), |i: int| (entry_key(start, out, i), out[i].0@))
}

/// Every entry of `log` sits at the offset where the bytes of the entries
/// before it end.
pub open spec fn log_is_gap_free(log: Seq<(u64, Seq<u8>)>) -> bool {
    forall|j: int| 0 <= j < log.len() ==> #[trigger] log[j].0 == log_bytes(log.take(j)).len()
}

/// Handing on the held-back chunks that continue from `at`, one after the
/// other: the entries handed on, in order; the offset where the run stops (the
/// first one not held back); and what stays held back.
pub open spec fn flush_from<P>(pending: Map<u64, (Vec<u8>, Option<P>)>, at: u64) -> (
    Seq<(Vec<u8>, Option<P>)>,
    u64,
    Map<u64, (Vec<u8>, Option<P>)>,
)
    decreases pending.len(),
{
    if pending.dom().finite() && pending.contains_key(at) {
        let e = pending[at];
        proof {
            assert(pending.remove(at).dom() =~= pending.dom().remove(at));
        }
        let rest = flush_from(pending.remove(at), (at + e.0@.len()) as u64);
        (seq![e] + rest.0, rest.1, rest.2)
    } else {
        (Seq::empty(), at, pending)
    }
}

pub open spec fn spec_max(a: int, b: int) -> int {
    if a < b {
        b
    } else {
        a
    }
}

/// The reassembly state of one download.
///
/// `P` is what travels with each chunk (a share of the download's buffer
/// budget); it is handed back together with the chunk when the chunk is due.
pub struct ChunkReorderer<P> {
    next_offset: u64,
    furthest_offset: u64,
    pending: HashMap<u64, (Vec<u8>, Option<P>)>,
    accepted: Ghost<Map<u64, Seq<u8>>>,
    emitted: Ghost<Seq<u8>>,
    handed: Ghost<Seq<(u64, Seq<u8>)>>,
    taken: Ghost<nat>,
}

impl<P> ChunkReorderer<P> {
    /// The offset of the first byte not yet handed on.
    pub closed spec fn next_offset(&self) -> u64 {
        self.next_offset
    }

    /// The end of the furthest chunk received so far.
    pub closed spec fn furthest_offset(&self) -> u64 {
        self.furthest_offset
    }

    /// The chunks received and held back, by offset: the bytes of each
    /// held-back entry.
    pub open spec fn pending_chunks(&self) -> Map<u64, Seq<u8>> {
        self.pending_entries().map_values(|v: (Vec<u8>, Option<P>)| v.0@)
    }

    /// The chunks held back, by offset, each with what travels with it.
    pub closed spec fn pending_entries(&self) -> Map<u64, (Vec<u8>, Option<P>)> {
        self.pending@
    }

    /// Every chunk accepted so far, by offset.
    pub closed spec fn accepted(&self) -> Map<u64, Seq<u8>> {
        self.accepted@
    }

    /// The bytes handed on so far, in order.
    pub closed spec fn emitted(&self) -> Seq<u8> {
        self.emitted@
    }

    /// Every chunk handed on so far, in order, with the offset it was handed on at.
    pub closed spec fn handed_on(&self) -> Seq<(u64, Seq<u8>)> {
        self.handed@
    }

    /// How many chunks were taken (not refused) so far.
    pub closed spec fn chunks_taken(&self) -> nat {
        self.taken@
    }

    pub closed spec fn wf(&self) -> bool {
        &&& self.emitted@.len() == self.next_offset
        &&& self.next_offset <= self.furthest_offset
        &&& !self.pending@.contains_key(self.next_offset)
        &&& forall|k: u64| #[trigger]
            self.pending@.contains_key(k) ==> self.accepted@.contains_key(k)
                && self.accepted@[k] == self.pending@[k].0@
        &&& forall|k: u64| #[trigger]
            self.accepted@.contains_key(k) ==> k + self.accepted@[k].len() <= self.furthest_offset
        &&& forall|k: u64| #[trigger]
            self.accepted@.contains_key(k) && !self.pending@.contains_key(k) ==> {
                &&& k + self.accepted@[k].len() <= self.next_offset
                &&& self.emitted@.subrange(k as int, k + self.accepted@[k].len())
                    == self.accepted@[k]
            }
        &&& self.furthest_offset == 0 || exists|w: u64| #[trigger]
            self.accepted@.contains_key(w) && w + self.accepted@[w].len() == self.furthest_offset
        &&& forall|i: int|
            0 <= i < self.next_offset ==> #[trigger] delivered_at(
                self.accepted@,
                self.pending@.dom(),
                i,
            )
        &&& handed_on_disjoint(self.accepted@, self.pending@.dom())
        &&& self.log_consistent()
    }

    /// The log of chunks handed on spells out the bytes handed on, without
    /// gaps, and counts with the held-back chunks to every chunk taken.
    #[verifier::opaque]
    closed spec fn log_consistent(&self) -> bool {
        &&& self.emitted@ == log_bytes(self.handed@)
        &&& log_is_gap_free(self.handed@)
        &&& self.handed@.len() + self.pending@.dom().len() == self.taken@
    }

    /// A reorderer for a download that has received nothing yet.
    pub fn new() -> (r: Self)
        ensures
            r.wf(),
            r.next_offset() == 0,
            r.furthest_offset() == 0,
            r.pending_entries() == Map::<u64, (Vec<u8>, Option<P>)>::empty(),
            r.pending_chunks() == Map::<u64, Seq<u8>>::empty(),
            r.accepted() == Map::<u64, Seq<u8>>::empty(),
            r.emitted() == Seq::<u8>::empty(),
            r.handed_on() == Seq::<(u64, Seq<u8>)>::empty(),
            r.chunks_taken() == 0,
    {
        let r = ChunkReorderer {
            next_offset: 0,
            furthest_offset: 0,
            pending: HashMap::new(),
            accepted: Ghost(Map::empty()),
            emitted: Ghost(Seq::empty()),
            handed: Ghost(Seq::empty()),
            taken: Ghost(0),
        };
        assert(r.pending_chunks() =~= Map::<u64, Seq<u8>>::empty());
        assert(r.log_consistent()) by {
            reveal(ChunkReorderer::log_consistent);
            assert(r.pending@.dom() =~= Set::<u64>::empty());
        }
        r
    }

    /// How many bytes were received but not yet handed on.
    pub fn cached_bytes(&self) -> (r: u64)
        requires
            self.wf(),
        ensures
            r == self.furthest_offset() - self.next_offset(),
    {
        self.furthest_offset - self.next_offset
    }

    /// Takes the chunk that starts at `offset`, and returns the chunks that are
    /// now due, in file order: empty when the chunk must wait, otherwise the
    /// chunk itself followed by every held-back chunk that continues it.
    #[verifier::spinoff_prover]
    #[verifier::rlimit(100)]
    pub fn on_chunk(&mut self, offset: u64, chunk: Vec<u8>, permit: Option<P>) -> (r: Result<
        Vec<(Vec<u8>, Option<P>)>,
        ReorderChunkError,
    >)
        requires
            old(self).wf(),
            offset + chunk.len() <= u64::MAX,
        ensures
            final(self).wf(),
            offset < old(self).next_offset() ==> {
                &&& r matches Err(ReorderChunkError::ReceivedUnexpectedChunk(o, n))
                &&& o == offset && n == old(self).next_offset()
                &&& *final(self) == *old(self)
            },
            offset > old(self).next_offset() && old(self).pending_chunks().contains_key(offset)
                ==> {
                &&& r matches Err(ReorderChunkError::DuplicateChunk(o))
                &&& o == offset
                &&& *final(self) == *old(self)
            },
            r is Ok ==> final(self).chunks_taken() == old(self).chunks_taken() + 1,
            r is Ok ==> final(self).handed_on() == old(self).handed_on() + run_log(
                old(self).next_offset(),
                r->Ok_0@,
            ),
            offset >= old(self).next_offset() && !(offset > old(self).next_offset()
                && old(self).pending_chunks().contains_key(offset)) ==> {
                &&& r is Ok
                &&& final(self).accepted() == old(self).accepted().insert(offset, chunk@)
                &&& final(self).furthest_offset() == spec_max(
                    old(self).furthest_offset() as int,
                    offset + chunk@.len(),
                )
                &&& final(self).emitted() == old(self).emitted() + chunk_bytes(r->Ok_0@)
                &&& final(self).next_offset() == final(self).emitted().len()
                &&& final(self).next_offset() == old(self).next_offset() + chunk_bytes(
                    r->Ok_0@,
                ).len()
                &&& (r->Ok_0@.len() > 0 <==> offset == old(self).next_offset())
                &&& forall|i: int|
                    0 <= i < r->Ok_0@.len() ==> {
                        &&& final(self).accepted().contains_key(
                            #[trigger] entry_key(old(self).next_offset(), r->Ok_0@, i),
                        )
                        &&& final(self).accepted()[entry_key(old(self).next_offset(), r->Ok_0@, i)]
                            == r->Ok_0@[i].0@
                    }
                &&& offset == old(self).next_offset() ==> {
                    let run = flush_from(old(self).pending_entries(), (offset + chunk@.len()) as u64);
                    &&& r->Ok_0@ == seq![(chunk, permit)] + run.0
                    &&& final(self).next_offset() == run.1
                    &&& final(self).pending_entries() == run.2
                }
                &&& !final(self).pending_chunks().contains_key(final(self).next_offset())
                &&& final(self).pending_chunks().submap_of(
                    old(self).pending_chunks().insert(offset, chunk@),
                )
                &&& offset != old(self).next_offset() ==> final(self).pending_entries()
                    == old(self).pending_entries().insert(offset, (chunk, permit))
                &&& offset != old(self).next_offset() ==> final(self).pending_chunks()
                    == old(self).pending_chunks().insert(offset, chunk@)
                &&& offset == old(self).next_offset() ==> {
                    let out = r->Ok_0@;
                    let start = old(self).next_offset();
                    &&& forall|i: int|
                        1 <= i < out.len() ==> {
                            &&& old(self).pending_entries().contains_key(
                                #[trigger] entry_key(start, out, i),
                            )
                            &&& old(self).pending_entries()[entry_key(start, out, i)] == out[i]
                            &&& !final(self).pending_entries().contains_key(
                                entry_key(start, out, i),
                            )
                        }
                    &&& forall|i: int, j: int|
                        1 <= i < j < out.len() ==> #[trigger] entry_key(start, out, i)
                            != #[trigger] entry_key(start, out, j)
                    &&& forall|k: u64| #[trigger]
                        final(self).pending_entries().contains_key(k) ==> old(self).pending_entries().contains_key(k) && final(self).pending_entries()[k]
                            == old(self).pending_entries()[k]
                    &&& forall|k: u64| #[trigger]
                        old(self).pending_entries().contains_key(k) && !final(self).pending_entries().contains_key(k) ==> exists|i: int|
                            1 <= i < out.len() && k == #[trigger] entry_key(start, out, i)
                }
            },
    {
        if offset < self.next_offset {
            return Err(ReorderChunkError::ReceivedUnexpectedChunk(offset, self.next_offset));
        }
        if offset > self.next_offset && self.pending.contains_key(&offset) {
            assert(self.pending_chunks().contains_key(offset));
            return Err(ReorderChunkError::DuplicateChunk(offset));
        }
        assert(offset > self.next_offset ==> !old(self).pending_chunks().contains_key(offset));
        let ghost old_pending_chunks = self.pending_chunks();
        let ghost old_emitted = self.emitted@;
        let ghost old_handed = self.handed@;
        assert(old_handed.len() + old(self).pending@.dom().len() == old(self).taken@) by {
            reveal(ChunkReorderer::log_consistent);
        }
        let ghost old_furthest = self.furthest_offset;
        proof {
            self.taken@ = self.taken@ + 1;
        }
        let chunk_len = chunk.len() as u64;
        let end = offset + chunk_len;
        if end > self.furthest_offset {
            self.furthest_offset = end;
        }
        proof {
            self.accepted@ = self.accepted@.insert(offset, chunk@);
        }
        let mut out: Vec<(Vec<u8>, Option<P>)> = Vec::new();
        if offset == self.next_offset {
            let ghost before = self.emitted@;
            proof {
                self.emitted@ = self.emitted@ + chunk@;
                assert(out@.push((chunk, permit)).drop_last() =~= out@);
            }
            out.push((chunk, permit));
            self.next_offset = end;
            proof {
                self.handed@ = self.handed@.push((offset, chunk@));
                assert(run_log(offset, out@) =~= seq![(offset, chunk@)]) by {
                    reveal(run_log);
                    assert(out@.take(0) =~= Seq::<(Vec<u8>, Option<P>)>::empty());
                }
                assert(self.handed@ =~= old_handed + run_log(offset, out@));
            }
            proof {
                assert forall|k: u64| #[trigger]
                    self.accepted@.contains_key(k) && !self.pending@.contains_key(k) implies {
                    &&& k + self.accepted@[k].len() <= self.next_offset
                    &&& self.emitted@.subrange(k as int, k + self.accepted@[k].len())
                        == self.accepted@[k]
                } by {
                    if k != offset {
                        assert(self.emitted@.subrange(k as int, k + self.accepted@[k].len())
                            =~= before.subrange(k as int, k + self.accepted@[k].len()));
                    } else {
                        assert(self.emitted@.subrange(k as int, k + self.accepted@[k].len())
                            =~= self.accepted@[k]);
                    }
                }
            }
        } else {
            self.pending.insert(offset, (chunk, permit));
            proof {
                assert(old(self).pending@.dom().finite());
                assert(!old(self).pending@.dom().contains(offset));
                assert(self.pending@.dom() =~= old(self).pending@.dom().insert(offset));
                assert(run_log(old(self).next_offset, out@) =~= Seq::<(u64, Seq<u8>)>::empty()) by {
                    reveal(run_log);
                }
                assert(self.handed@ =~= old_handed + run_log(old(self).next_offset, out@));
            }
        }
        proof {
            if self.furthest_offset != 0 {
                if self.furthest_offset == end {
                    assert(self.accepted@.contains_key(offset));
                } else {
                    let w = choose|w: u64| #[trigger]
                        old(self).accepted@.contains_key(w) && w + old(self).accepted@[w].len()
                            == old(self).furthest_offset;
                    assert(self.accepted@.contains_key(w));
                }
            }
        }
        proof {
            assert forall|i: int| 0 <= i < self.next_offset implies #[trigger] delivered_at(
                self.accepted@,
                self.pending@.dom(),
                i,
            ) by {
                if i < old(self).next_offset {
                    assert(delivered_at(old(self).accepted@, old(self).pending@.dom(), i));
                    let k = choose|k: u64|
                        #![trigger old(self).accepted@[k]]
                        old(self).accepted@.contains_key(k) && !old(self).pending@.dom().contains(k)
                            && k <= i < k + old(self).accepted@[k].len();
                    assert(k != offset);
                    assert(self.accepted@[k] == old(self).accepted@[k]);
                } else {
                    assert(self.accepted@[offset] == chunk@);
                }
            }
        }
        proof {
            assert forall|k1: u64, k2: u64|
                #![trigger self.accepted@[k1], self.accepted@[k2]]
                self.accepted@.contains_key(k1) && self.accepted@.contains_key(k2) && k1 != k2
                    && !self.pending@.dom().contains(k1) && !self.pending@.dom().contains(k2)
                    && self.accepted@[k1].len() > 0 && self.accepted@[k2].len() > 0 implies k1
                + self.accepted@[k1].len() <= k2 || k2 + self.accepted@[k2].len() <= k1 by {
                if k1 != offset && k2 != offset {
                    assert(old(self).accepted@[k1] == self.accepted@[k1]);
                    assert(old(self).accepted@[k2] == self.accepted@[k2]);
                    assert(!old(self).pending@.contains_key(k1));
                    assert(!old(self).pending@.contains_key(k2));
                } else if k1 == offset {
                    assert(old(self).accepted@.contains_key(k2));
                    assert(!old(self).pending@.contains_key(k2));
                } else {
                    assert(old(self).accepted@.contains_key(k1));
                    assert(!old(self).pending@.contains_key(k1));
                }
            }
        }
        let ghost acc = self.accepted@;
        let ghost pend1 = self.pending@;
        assert(offset == old(self).next_offset ==> out@ =~= seq![(chunk, permit)]);
        assert(self.pending_chunks().submap_of(old_pending_chunks.insert(offset, chunk@)));
        proof {
            if out@.len() == 1 {
                assert(chunk_bytes(out@.drop_last()) =~= Seq::<u8>::empty());
            }
            assert(self.emitted@ =~= old_emitted + chunk_bytes(out@));
        }
        loop
            invariant_except_break
                self.emitted@.len() == self.next_offset,
                self.next_offset <= self.furthest_offset,
            invariant
                forall|i: int|
                    0 <= i < self.next_offset ==> #[trigger] delivered_at(
                        self.accepted@,
                        self.pending@.dom(),
                        i,
                    ),
                self.accepted@ == acc,
                handed_on_disjoint(self.accepted@, self.pending@.dom()),
                self.handed@ == old_handed + run_log(old(self).next_offset, out@),
                self.handed@.len() + self.pending@.dom().len() == old(self).taken@ + 1,
                self.taken@ == old(self).taken@ + 1,
                self.furthest_offset == old(self).furthest_offset || self.furthest_offset == end,
                self.furthest_offset == spec_max(old_furthest as int, end as int),
                self.emitted@ == old_emitted + chunk_bytes(out@),
                forall|k: u64| #[trigger]
                    self.pending@.contains_key(k) ==> pend1.contains_key(k) && self.pending@[k]
                        == pend1[k],
                out@.len() > 0 <==> offset == old(self).next_offset(),
                out@.len() == 0 ==> self.next_offset == old(self).next_offset
                    && !self.pending@.contains_key(self.next_offset) && self.pending@ == pend1,
                old_emitted.len() == old(self).next_offset,
                offset == old(self).next_offset ==> pend1 == old(self).pending@,
                forall|i: int|
                    1 <= i < out@.len() ==> {
                        &&& pend1.contains_key(
                            #[trigger] entry_key(old(self).next_offset, out@, i),
                        )
                        &&& pend1[entry_key(old(self).next_offset, out@, i)] == out@[i]
                        &&& !self.pending@.contains_key(entry_key(old(self).next_offset, out@, i))
                    },
                forall|i: int, j: int|
                    1 <= i < j < out@.len() ==> #[trigger] entry_key(old(self).next_offset, out@, i)
                        != #[trigger] entry_key(old(self).next_offset, out@, j),
                forall|k: u64| #[trigger]
                    pend1.contains_key(k) && !self.pending@.contains_key(k) ==> exists|i: int|
                        1 <= i < out@.len() && k == #[trigger] entry_key(
                            old(self).next_offset,
                            out@,
                            i,
                        ),
                offset == old(self).next_offset() ==> out@[0] == (chunk, permit),
                offset == old(self).next_offset() ==> {
                    let run = flush_from(pend1, end);
                    let here = flush_from(self.pending@, self.next_offset);
                    &&& seq![(chunk, permit)] + run.0 == out@ + here.0
                    &&& run.1 == here.1
                    &&& run.2 == here.2
                },
                forall|k: u64| #[trigger]
                    self.pending@.contains_key(k) ==> self.accepted@.contains_key(k)
                        && self.accepted@[k] == self.pending@[k].0@,
                forall|k: u64| #[trigger]
                    self.accepted@.contains_key(k) ==> k + self.accepted@[k].len()
                        <= self.furthest_offset,
                forall|k: u64| #[trigger]
                    self.accepted@.contains_key(k) && !self.pending@.contains_key(k) ==> {
                        &&& k + self.accepted@[k].len() <= self.next_offset
                        &&& self.emitted@.subrange(k as int, k + self.accepted@[k].len())
                            == self.accepted@[k]
                    },
                self.furthest_offset == 0 || exists|w: u64| #[trigger]
                    self.accepted@.contains_key(w) && w + self.accepted@[w].len()
                        == self.furthest_offset,
            ensures
                self.emitted@.len() == self.next_offset,
                self.next_offset <= self.furthest_offset,
                !self.pending@.contains_key(self.next_offset),
            decreases self.pending@.len(),
        {
            let key = self.next_offset;
            let ghost pend_before = self.pending@;
            assert(pend_before.dom().finite());
            match self.pending.remove(&key) {
                Some(entry) => {
                    let ghost before = self.emitted@;
                    let ghost prev_pending = old_pending_chunks;
                    assert(acc.contains_key(key));
                    let len = entry.0.len() as u64;
                    let ghost out_before = out@;
                    proof {
                        self.emitted@ = self.emitted@ + entry.0@;
                        assert(out@.push(entry).drop_last() =~= out@);
                        assert(chunk_bytes(out_before).len() == key - old(self).next_offset);
                    }
                    out.push(entry);
                    self.next_offset = key + len;
                    proof {
                        assert forall|k1: u64, k2: u64|
                            #![trigger self.accepted@[k1], self.accepted@[k2]]
                            self.accepted@.contains_key(k1) && self.accepted@.contains_key(k2)
                                && k1 != k2 && !self.pending@.dom().contains(k1)
                                && !self.pending@.dom().contains(k2) && self.accepted@[k1].len() > 0
                                && self.accepted@[k2].len() > 0 implies k1 + self.accepted@[k1].len()
                            <= k2 || k2 + self.accepted@[k2].len() <= k1 by {
                            if k1 == key {
                                assert(!pend_before.contains_key(k2));
                            } else if k2 == key {
                                assert(!pend_before.contains_key(k1));
                            } else {
                                assert(!pend_before.dom().contains(k1));
                                assert(!pend_before.dom().contains(k2));
                            }
                        }
                    }
                    proof {
                        if offset == old(self).next_offset {
                            let here = flush_from(pend_before, key);
                            let rest = flush_from(self.pending@, self.next_offset);
                            assert(self.pending@ == pend_before.remove(key));
                            assert(here.0 == seq![entry] + rest.0);
                            assert(out_before + here.0 =~= out@ + rest.0);
                        }
                    }
                    proof {
                        if self.furthest_offset != 0 {
                            let w = choose|w: u64| #[trigger]
                                acc.contains_key(w) && w + acc[w].len() == self.furthest_offset;
                            assert(self.accepted@.contains_key(w));
                        }
                        let start = old(self).next_offset;
                        assert(out@.take(out_before.len() as int) =~= out_before);
                        assert(entry_key(start, out@, out_before.len() as int) == key);
                        assert(self.handed@.push((key, entry.0@)) == old_handed + run_log(
                            start,
                            out@,
                        )) by {
                            lemma_run_log_push(start, out_before, entry, key);
                            assert(old_handed + run_log(start, out_before).push((key, entry.0@))
                                =~= (old_handed + run_log(start, out_before)).push(
                                (key, entry.0@),
                            ));
                        }
                        assert(self.pending@.dom().len() == pend_before.dom().len() - 1) by {
                            assert(pend_before.dom().remove(key) =~= self.pending@.dom());
                        }
                        self.handed@ = self.handed@.push((key, entry.0@));
                        assert forall|i: int| 1 <= i < out@.len() implies {
                            &&& pend1.contains_key(#[trigger] entry_key(start, out@, i))
                            &&& pend1[entry_key(start, out@, i)] == out@[i]
                            &&& !self.pending@.contains_key(entry_key(start, out@, i))
                        } by {
                            if i < out_before.len() {
                                assert(out@.take(i) =~= out_before.take(i));
                                assert(entry_key(start, out@, i) == entry_key(start, out_before, i));
                            }
                        }
                        assert forall|i: int, j: int|
                            1 <= i < j < out@.len() implies #[trigger] entry_key(start, out@, i)
                            != #[trigger] entry_key(start, out@, j) by {
                            assert(out@.take(i) =~= out_before.take(i));
                            assert(entry_key(start, out@, i) == entry_key(start, out_before, i));
                            if j < out_before.len() {
                                assert(out@.take(j) =~= out_before.take(j));
                                assert(entry_key(start, out@, j) == entry_key(start, out_before, j));
                            } else {
                                assert(!pend_before.contains_key(entry_key(start, out_before, i)));
                                assert(pend_before.contains_key(key));
                            }
                        }
                        assert forall|k: u64| #[trigger]
                            pend1.contains_key(k) && !self.pending@.contains_key(k) implies exists|
                            i: int,
                        | 1 <= i < out@.len() && k == #[trigger] entry_key(start, out@, i) by {
                            if k == key {
                                assert(entry_key(start, out@, out_before.len() as int) == key);
                            } else {
                                assert(!pend_before.contains_key(k));
                                let i = choose|i: int|
                                    1 <= i < out_before.len() && k == #[trigger] entry_key(
                                        start,
                                        out_before,
                                        i,
                                    );
                                assert(out@.take(i) =~= out_before.take(i));
                                assert(entry_key(start, out@, i) == k);
                            }
                        }
                    }
                    proof {
                        assert forall|k: u64| #[trigger]
                            self.accepted@.contains_key(k) && !self.pending@.contains_key(k)
                            implies {
                            &&& k + self.accepted@[k].len() <= self.next_offset
                            &&& self.emitted@.subrange(k as int, k + self.accepted@[k].len())
                                == self.accepted@[k]
                        } by {
                            if k != key {
                                assert(self.emitted@.subrange(
                                    k as int,
                                    k + self.accepted@[k].len(),
                                ) =~= before.subrange(k as int, k + self.accepted@[k].len()));
                            } else {
                                assert(self.emitted@.subrange(
                                    k as int,
                                    k + self.accepted@[k].len(),
                                ) =~= self.accepted@[k]);
                            }
                        }
                        assert(self.emitted@ =~= old_emitted + chunk_bytes(out@));
                        assert forall|i: int| 0 <= i < self.next_offset implies #[trigger] delivered_at(
                            self.accepted@,
                            self.pending@.dom(),
                            i,
                        ) by {
                            if i < key {
                                assert(delivered_at(acc, pend_before.dom(), i));
                                let k = choose|k: u64|
                                    #![trigger acc[k]]
                                    acc.contains_key(k) && !pend_before.dom().contains(k)
                                        && k <= i < k + acc[k].len();
                                assert(!self.pending@.dom().contains(k));
                            } else {
                                assert(acc[key] == entry.0@);
                                assert(!self.pending@.dom().contains(key));
                            }
                        }
                    }
                },
                None => {
                    assert(self.pending@ =~= pend_before);
                    assert(out@ + flush_from(self.pending@, self.next_offset).0 =~= out@);
                    break ;
                },
            }
        }
        proof {
            let target = old_pending_chunks.insert(offset, chunk@);
            assert forall|k: u64| #[trigger]
                self.pending_chunks().contains_key(k) implies target.contains_key(k)
                && self.pending_chunks()[k] == target[k] by {
                assert(pend1.contains_key(k));
            }
            if offset != old(self).next_offset {
                assert(self.pending_chunks() =~= target);
            }
            assert(self.log_consistent()) by {
                reveal(ChunkReorderer::log_consistent);
                lemma_log_extends(old_handed, old(self).next_offset, out@);
            }
            let start = old(self).next_offset;
            assert forall|i: int| 0 <= i < out@.len() implies {
                &&& self.accepted@.contains_key(#[trigger] entry_key(start, out@, i))
                &&& self.accepted@[entry_key(start, out@, i)] == out@[i].0@
            } by {
                if i == 0 {
                    assert(out@.take(0) =~= Seq::<(Vec<u8>, Option<P>)>::empty());
                    assert(entry_key(start, out@, i) == offset);
                } else {
                    let k = entry_key(start, out@, i);
                    assert(old(self).pending@.contains_key(k));
                    assert(k != offset);
                }
            }
        }
        Ok(out)
    }

    /// The outcome once no more chunks will come: success when nothing is held back.
    pub fn finish(&self) -> (r: Result<(), ReorderChunkError>)
        requires
            self.wf(),
        ensures
            self.pending_chunks().len() == 0 ==> r is Ok,
            self.pending_chunks().len() > 0 ==> (r matches Err(ReorderChunkError::LeftoverChunks(n))
                && n == self.pending_chunks().len()),
            r is Ok ==> self.next_offset() == self.furthest_offset(),
            r is Ok ==> forall|k: u64|
                #![trigger self.accepted()[k]]
                self.accepted().contains_key(k) ==> self.emitted().subrange(
                    k as int,
                    k + self.accepted()[k].len(),
                ) == self.accepted()[k],
    {
        let n = self.pending.len();
        assert(self.pending_chunks().dom() =~= self.pending@.dom());
        if n == 0 {
            proof {
                lemma_nothing_held_back(self);
            }
            Ok(())
        } else {
            Err(ReorderChunkError::LeftoverChunks(n))
        }
    }
}

proof fn lemma_run_log_push<P>(
    start: u64,
    out: Seq<(Vec<u8>, Option<P>)>,
    e: (Vec<u8>, Option<P>),
    key: u64,
)
    requires
        key == entry_key(start, out.push(e), out.len() as int),
    ensures
        run_log(start, out.push(e)) == run_log(start, out).push((key, e.0@)),
{
    reveal(run_log);
    assert forall|k: int| 0 <= k < out.len() implies #[trigger] entry_key(start, out.push(e), k)
        == entry_key(start, out, k) by {
        assert(out.push(e).take(k) =~= out.take(k));
    }
    assert(run_log(start, out.push(e)) =~= run_log(start, out).push((key, e.0@)));
}

proof fn lemma_log_extends<P>(log: Seq<(u64, Seq<u8>)>, start: u64, out: Seq<(Vec<u8>, Option<P>)>)
    requires
        start == log_bytes(log).len(),
        log_is_gap_free(log),
        start + chunk_bytes(out).len() <= u64::MAX,
    ensures
        log_bytes(log + run_log(start, out)) == log_bytes(log) + chunk_bytes(out),
        log_is_gap_free(log + run_log(start, out)),
    decreases out.len(),
{
    if out.len() == 0 {
        assert(log + run_log(start, out) =~= log) by {
            reveal(run_log);
        }
        assert(chunk_bytes(out) =~= Seq::<u8>::empty());
        assert(log_bytes(log) + chunk_bytes(out) =~= log_bytes(log));
    } else {
        let o2 = out.drop_last();
        let e = out.last();
        assert(out =~= o2.push(e));
        lemma_log_extends(log, start, o2);
        let l2 = log + run_log(start, o2);
        let key = entry_key(start, out, o2.len() as int);
        assert(out.take(o2.len() as int) =~= o2);
        lemma_run_log_push(start, o2, e, key);
        let l = log + run_log(start, out);
        assert(l =~= l2.push((key, e.0@)));
        assert(l.drop_last() =~= l2);
        assert(log_bytes(l) == log_bytes(l2) + e.0@);
        assert(log_bytes(l) =~= log_bytes(log) + chunk_bytes(out));
        assert forall|j: int| 0 <= j < l.len() implies #[trigger] l[j].0 == log_bytes(l.take(j)).len() by {
            if j < l2.len() {
                assert(l.take(j) =~= l2.take(j));
                assert(l[j] == l2[j]);
            } else {
                assert(l.take(j) =~= l2);
            }
        }
    }
}

/// Over a whole run, the chunks handed on form a gap-free prefix of the
/// stream: each was handed on at the offset where the bytes handed on before
/// it end, together they are exactly the bytes handed on, and every chunk taken
/// is either handed on once or still held back.
pub proof fn lemma_handed_on_gap_free<P>(r: &ChunkReorderer<P>)
    requires
        r.wf(),
    ensures
        r.emitted() == log_bytes(r.handed_on()),
        r.next_offset() == log_bytes(r.handed_on()).len(),
        forall|j: int|
            0 <= j < r.handed_on().len() ==> #[trigger] r.handed_on()[j].0 == log_bytes(
                r.handed_on().take(j),
            ).len(),
        r.handed_on().len() + r.pending_entries().len() == r.chunks_taken(),
{
    reveal(ChunkReorderer::log_consistent);
}

/// In a well-formed reorderer the next offset due is the number of bytes
/// handed on, no received chunk ends past the furthest offset, and nothing is
/// held back at the next offset due.
pub proof fn lemma_wf_next_is_emitted_len<P>(r: &ChunkReorderer<P>)
    requires
        r.wf(),
    ensures
        r.next_offset() == r.emitted().len(),
        r.next_offset() <= r.furthest_offset(),
        !r.pending_chunks().contains_key(r.next_offset()),
        !r.pending_entries().contains_key(r.next_offset()),
{
}

/// When every chunk received holds bytes, nothing is held back exactly when
/// the chunks received tile the file up to the end of the furthest one; so
/// `finish` succeeds exactly then.
pub proof fn lemma_nothing_held_back_iff_tiled<P>(r: &ChunkReorderer<P>)
    requires
        r.wf(),
        forall|k: u64| #[trigger] r.accepted().contains_key(k) ==> r.accepted()[k].len() > 0,
    ensures
        r.pending_chunks().len() == 0 <==> tiles(r.accepted(), r.furthest_offset() as int),
{
    assert(r.pending_chunks().dom() =~= r.pending@.dom());
    let acc = r.accepted@;
    if r.pending_chunks().len() == 0 {
        lemma_nothing_held_back(r);
        r.pending@.dom().lemma_len0_is_empty();
        assert forall|k1: u64, k2: u64|
            #![trigger acc[k1], acc[k2]]
            acc.contains_key(k1) && acc.contains_key(k2) && k1 != k2 implies k1 + acc[k1].len()
            <= k2 || k2 + acc[k2].len() <= k1 by {
            assert(!r.pending@.dom().contains(k1));
            assert(!r.pending@.dom().contains(k2));
            assert(r.accepted().contains_key(k1) && r.accepted().contains_key(k2));
            assert(handed_on_disjoint(acc, r.pending@.dom()));
        }
        assert forall|i: int| 0 <= i < r.furthest_offset() implies #[trigger] covered_at(acc, i) by {
            assert(delivered_at(acc, r.pending@.dom(), i));
            let k = choose|k: u64|
                #![trigger acc[k]]
                acc.contains_key(k) && !r.pending@.dom().contains(k) && k <= i < k + acc[k].len();
            assert(acc[k] == acc[k]);
        }
    } else if tiles(acc, r.furthest_offset() as int) {
        if r.pending@.dom() =~= Set::<u64>::empty() {
            assert(r.pending_chunks().len() == 0);
        }
        assert(exists|k: u64| r.pending@.dom().contains(k));
        let k = choose|k: u64| r.pending@.dom().contains(k);
        assert(r.pending@.contains_key(k));
        assert(acc.contains_key(k));
        if k < r.next_offset {
            assert(delivered_at(acc, r.pending@.dom(), k as int));
            let j = choose|j: u64|
                #![trigger acc[j]]
                acc.contains_key(j) && !r.pending@.dom().contains(j) && j <= k < j + acc[j].len();
            assert(acc[j] == acc[j] && acc[k] == acc[k]);
        } else {
            let n = r.next_offset as int;
            assert(n < r.furthest_offset);
            assert(covered_at(acc, n));
            let j = choose|j: u64| #![trigger acc[j]] acc.contains_key(j) && j <= n < j + acc[j].len();
            assert(r.pending@.contains_key(j));
            assert(delivered_at(acc, r.pending@.dom(), j as int));
            let m = choose|m: u64|
                #![trigger acc[m]]
                acc.contains_key(m) && !r.pending@.dom().contains(m) && m <= j < m + acc[m].len();
            assert(acc[j] == acc[j] && acc[m] == acc[m]);
        }
    }
}

/// A chunk that holds bytes and overlaps none of the chunks received so far
/// (each of which holds bytes) is neither behind the stream nor a repeat: it is
/// taken.
pub proof fn lemma_disjoint_chunk_is_taken<P>(r: &ChunkReorderer<P>, offset: u64, len: nat)
    requires
        r.wf(),
        len > 0,
        forall|k: u64| #[trigger] r.accepted().contains_key(k) ==> r.accepted()[k].len() > 0,
        forall|k: u64| #[trigger]
            r.accepted().contains_key(k) ==> offset + len <= k || k + r.accepted()[k].len()
                <= offset,
    ensures
        offset >= r.next_offset(),
        !r.pending_chunks().contains_key(offset),
{
    assert(r.pending_chunks().dom() =~= r.pending@.dom());
    let acc = r.accepted@;
    if offset < r.next_offset {
        assert(delivered_at(acc, r.pending@.dom(), offset as int));
        let j = choose|j: u64|
            #![trigger acc[j]]
            acc.contains_key(j) && !r.pending@.dom().contains(j) && j <= offset < j + acc[j].len();
        assert(r.accepted().contains_key(j));
    }
    if r.pending@.contains_key(offset) {
        assert(r.accepted().contains_key(offset));
    }
}

/// A chunk that is no longer held back was handed on whole, at its own offset.
pub proof fn lemma_delivered_in_place<P>(r: &ChunkReorderer<P>, k: u64)
    requires
        r.wf(),
        r.accepted().contains_key(k),
        !r.pending_chunks().contains_key(k),
    ensures
        k + r.accepted()[k].len() <= r.next_offset(),
        r.emitted().subrange(k as int, k + r.accepted()[k].len()) == r.accepted()[k],
{
}

/// A chunk that is held back was received, and does not start at the next offset due.
pub proof fn lemma_held_back_received<P>(r: &ChunkReorderer<P>, k: u64)
    requires
        r.wf(),
        r.pending_chunks().contains_key(k),
    ensures
        r.accepted().contains_key(k),
        r.accepted()[k] == r.pending_chunks()[k],
        k != r.next_offset(),
{
}

/// When every received chunk is the piece of one file at its offset, the bytes
/// handed on are exactly the start of that file.
pub proof fn lemma_emitted_is_file_prefix<P>(r: &ChunkReorderer<P>, file: Seq<u8>)
    requires
        r.wf(),
        forall|k: u64|
            #![trigger r.accepted()[k]]
            r.accepted().contains_key(k) ==> k + r.accepted()[k].len() <= file.len()
                && r.accepted()[k] == file.subrange(k as int, k + r.accepted()[k].len()),
    ensures
        r.next_offset() <= file.len(),
        r.emitted() == file.subrange(0, r.next_offset() as int),
{
    assert forall|i: int| 0 <= i < r.next_offset() implies r.emitted()[i] == file[i] && i
        < file.len() by {
        assert(delivered_at(r.accepted@, r.pending@.dom(), i));
        let k = choose|k: u64|
            #![trigger r.accepted@[k]]
            r.accepted@.contains_key(k) && !r.pending@.dom().contains(k) && k <= i < k
                + r.accepted@[k].len();
        let len = r.accepted@[k].len();
        assert(r.accepted().contains_key(k));
        assert(k + r.accepted()[k].len() <= file.len());
        assert(r.accepted()[k] == file.subrange(k as int, k + len));
        assert(r.emitted@.subrange(k as int, k + len)[i - k] == r.emitted@[i]);
        assert(file.subrange(k as int, k + len)[i - k] == file[i]);
    }
    if r.next_offset() > 0 {
        let last = r.next_offset() - 1;
        assert(0 <= last < r.next_offset());
        assert(r.emitted()[last] == file[last] && last < file.len());
    }
    assert(r.emitted() =~= file.subrange(0, r.next_offset() as int));
}

/// Once nothing is held back, every byte up to the end of the furthest chunk
/// received was handed on, and every received chunk is in place.
pub proof fn lemma_nothing_held_back<P>(r: &ChunkReorderer<P>)
    requires
        r.wf(),
        r.pending_chunks().len() == 0,
    ensures
        r.next_offset() == r.furthest_offset(),
        r.emitted().len() == r.furthest_offset(),
        forall|k: u64|
            #![trigger r.accepted()[k]]
            r.accepted().contains_key(k) ==> r.emitted().subrange(k as int, k + r.accepted()[k].len())
                == r.accepted()[k],
{
    assert(r.pending_chunks().dom() =~= r.pending@.dom());
    r.pending@.dom().lemma_len0_is_empty();
    if r.furthest_offset() != 0 {
        let w = choose|w: u64| #[trigger]
            r.accepted@.contains_key(w) && w + r.accepted@[w].len() == r.furthest_offset;
        assert(!r.pending@.contains_key(w));
    }
    assert forall|k: u64|
        #![trigger r.accepted()[k]]
        r.accepted().contains_key(k) implies r.emitted().subrange(k as int, k + r.accepted()[k].len())
        == r.accepted()[k] by {
        assert(!r.pending@.contains_key(k));
    }
}

/// A download whose chunks are the pieces of `file`, that holds nothing back
/// and has received up to the end of `file`, handed on exactly `file`.
pub proof fn lemma_complete_download_is_file<P>(r: &ChunkReorderer<P>, file: Seq<u8>)
    requires
        r.wf(),
        r.pending_chunks().len() == 0,
        r.furthest_offset() == file.len(),
        forall|k: u64|
            #![trigger r.accepted()[k]]
            r.accepted().contains_key(k) ==> k + r.accepted()[k].len() <= file.len()
                && r.accepted()[k] == file.subrange(k as int, k + r.accepted()[k].len()),
    ensures
        r.emitted() == file,
{
    lemma_nothing_held_back(r);
    lemma_emitted_is_file_prefix(r, file);
    assert(file.subrange(0, file.len() as int) =~= file);
}

} // verus!

//! The sequential consumers of a download that hash what they receive.
use vstd::prelude::*;
use crate::hashing::{sha256, StreamHasher};
use crate::reorder::{lemma_complete_download_is_file, ChunkReorderer};

verus! {

#[verifier::external_type_specification]
#[verifier::external_body]
#[verifier::reject_recursive_types(T)]
pub struct ExOneshotSender<T>(tokio::sync::oneshot::Sender<T>);

/// Whether `tx` and `rx` are the two ends of one channel made by
/// `tokio::sync::oneshot::channel`: what `tx` sends is what `rx` receives.
pub uninterp spec fn paired_ends(
    tx: tokio::sync::oneshot::Sender<Result<Vec<u8>, ()>>,
    rx: tokio::sync::oneshot::Receiver<Result<Vec<u8>, ()>>,
) -> bool;

/// Calls `tokio::sync::oneshot::channel`, which builds its two ends around one
/// shared state: they are paired.
#[verifier::external_body]
fn digest_channel() -> (r: (
    tokio::sync::oneshot::Sender<Result<Vec<u8>, ()>>,
    tokio::sync::oneshot::Receiver<Result<Vec<u8>, ()>>,
))
    ensures
        paired_ends(r.0, r.1),
{
    tokio::sync::oneshot::channel()
}

/// The bytes of a digest, as a vector.
pub fn digest_bytes(digest: &[u8; 32]) -> (r: Vec<u8>)
    ensures
        r@ == digest@,
{
    let mut out: Vec<u8> = Vec::new();
    let mut i: usize = 0;
    while i < 32
        invariant
            i <= 32,
            out@ == digest@.take(i as int),
        decreases 32 - i,
    {
        out.push(digest[i]);
        i = i + 1;
        assert(out@ =~= digest@.take(i as int));
    }
    assert(digest@.take(32) =~= digest@);
    out
}

/// What a hashing consumer owes the end that waits for its digest: the
/// message, and the sender that takes it there.
pub struct Completion {
    pub sender: tokio::sync::oneshot::Sender<Result<Vec<u8>, ()>>,
    pub message: Result<Vec<u8>, ()>,
}

/// Hashes a download and reports the digest when the download is over.
pub struct HashingChunkConsumer {
    hasher: StreamHasher,
    completion: Option<tokio::sync::oneshot::Sender<Result<Vec<u8>, ()>>>,
}

impl HashingChunkConsumer {
    /// The bytes received so far.
    pub closed spec fn absorbed(&self) -> Seq<u8> {
        self.hasher.absorbed()
    }

    /// The sender on which the consumer reports its outcome, if anyone waits for it.
    pub closed spec fn report_sender(&self) -> Option<
        tokio::sync::oneshot::Sender<Result<Vec<u8>, ()>>,
    > {
        self.completion
    }

    pub open spec fn reports(&self) -> bool {
        self.report_sender() is Some
    }

    /// A consumer that reports to nobody.
    pub fn new() -> (r: Self)
        ensures
            r.absorbed() == Seq::<u8>::empty(),
            !r.reports(),
    {
        HashingChunkConsumer { hasher: StreamHasher::new(), completion: None }
    }

    /// A consumer, and the end on which its digest (or its failure) arrives.
    pub fn new_with_hash_provider() -> (r: (
        Self,
        tokio::sync::oneshot::Receiver<Result<Vec<u8>, ()>>,
    ))
        ensures
            r.0.absorbed() == Seq::<u8>::empty(),
            r.0.report_sender() matches Some(tx) && paired_ends(tx, r.1),
    {
        let (tx, rx) = digest_channel();
        (HashingChunkConsumer { hasher: StreamHasher::new(), completion: Some(tx) }, rx)
    }

    /// Takes the next bytes of the download.
    pub fn consume_bytes(&mut self, chunk: &[u8])
        ensures
            final(self).absorbed() == old(self).absorbed() + chunk@,
            final(self).report_sender() == old(self).report_sender(),
    {
        self.hasher.update(chunk);
    }

    /// The download is complete: returns the digest of everything received
    /// and, when a receiver waits for it, the report to send there: `Ok` of
    /// that digest.
    pub fn finalise(self) -> (r: (Vec<u8>, Option<Completion>))
        ensures
            r.0@ == sha256(self.absorbed()),
            r.1 is Some <==> self.reports(),
            r.1 matches Some(c) ==> (c.message matches Ok(d) && d@ == sha256(self.absorbed())),
            r.1 matches Some(c) ==> self.report_sender() == Some(c.sender),
    {
        let digest = self.hasher.finalize();
        let bytes = digest_bytes(&digest);
        match self.completion {
            Some(sender) => {
                let report = Completion { sender, message: Ok(digest_bytes(&digest)) };
                (bytes, Some(report))
            },
            None => (bytes, None),
        }
    }

    /// The download failed: when a receiver waits for the digest, the report
    /// to send there, `Err(())`.
    pub fn on_failure(self) -> (r: Option<Completion>)
        ensures
            r is Some <==> self.reports(),
            r matches Some(c) ==> c.message == Err::<Vec<u8>, ()>(()),
            r matches Some(c) ==> self.report_sender() == Some(c.sender),
    {
        match self.completion {
            Some(sender) => Some(Completion { sender, message: Err(()) }),
            None => None,
        }
    }
}

/// Hashes a download and compares the digest with the one expected.
pub struct HashVerifier {
    hasher: StreamHasher,
    expected: [u8; 32],
}

impl HashVerifier {
    pub closed spec fn absorbed(&self) -> Seq<u8> {
        self.hasher.absorbed()
    }

    pub closed spec fn expected(&self) -> Seq<u8> {
        self.expected@
    }

    pub fn new(expected: [u8; 32]) -> (r: Self)
        ensures
            r.absorbed() == Seq::<u8>::empty(),
            r.expected() == expected@,
    {
        HashVerifier { hasher: StreamHasher::new(), expected }
    }

    /// Takes the next bytes of the download.
    pub fn consume_bytes(&mut self, chunk: &[u8])
        ensures
            final(self).absorbed() == old(self).absorbed() + chunk@,
            final(self).expected() == old(self).expected(),
    {
        self.hasher.update(chunk);
    }

    /// The digest of everything received: `Ok` when it is the expected one,
    /// `Err` with the actual digest otherwise.
    pub fn verdict(self) -> (r: Result<[u8; 32], [u8; 32]>)
        ensures
            r is Ok <==> sha256(self.absorbed()) == self.expected(),
            r matches Ok(d) ==> d@ == sha256(self.absorbed()),
            r matches Err(d) ==> d@ == sha256(self.absorbed()),
    {
        let expected = self.expected;
        let actual = self.hasher.finalize();
        let mut i: usize = 0;
        while i < 32
            invariant
                i <= 32,
                actual@ == sha256(self.absorbed()),
                expected@ == self.expected(),
                forall|k: int| 0 <= k < i ==> actual@[k] == expected@[k],
            decreases 32 - i,
        {
            if actual[i] != expected[i] {
                assert(actual@[i as int] != expected@[i as int]);
                return Err(actual);
            }
            i = i + 1;
        }
        assert(actual@ =~= expected@);
        Ok(actual)
    }
}

/// A hashing consumer that took exactly what a complete download of `file`
/// handed on reports the SHA-256 of `file`, whatever order the chunks came in.
pub proof fn lemma_digest_of_complete_download<P>(
    consumer: &HashingChunkConsumer,
    r: &ChunkReorderer<P>,
    file: Seq<u8>,
)
    requires
        r.wf(),
        r.pending_chunks().len() == 0,
        r.furthest_offset() == file.len(),
        forall|k: u64|
            #![trigger r.accepted()[k]]
            r.accepted().contains_key(k) ==> k + r.accepted()[k].len() <= file.len()
                && r.accepted()[k] == file.subrange(k as int, k + r.accepted()[k].len()),
        consumer.absorbed() == r.emitted(),
    ensures
        sha256(consumer.absorbed()) == sha256(file),
{
    lemma_complete_download_is_file(r, file);
}

} // verus!

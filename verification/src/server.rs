//! The test server that serves files with and without range support.
use vstd::prelude::*;

verus! {

/// The arguments of the test server.
pub struct Args {
    pub command: ServerType,
}

/// Which server to run.
pub enum ServerType {
    /// A random file, with range support.
    Simple,
    /// A file of zeros, with range support.
    ZeroServer(ZeroServerArgs),
}

pub struct ZeroServerArgs {
    pub zero_len: u64,
}

/// The most zeros one read hands out.
pub const ZERO_READ_BLOCK: u64 = 32768;

/// A body of `len` zeros, read from position `pos`.
pub struct ZeroBody {
    pub len: u64,
    pub pos: u64,
}

impl ZeroBody {
    pub fn new(len: u64) -> (r: Self)
        ensures
            r.len == len,
            r.pos == 0,
    {
        ZeroBody { len, pos: 0 }
    }

    /// The size of the whole body.
    pub fn byte_size(&self) -> (r: u64)
        ensures
            r == self.len,
    {
        self.len
    }

    /// How many zeros the next read hands out: what is left, at most one block.
    pub open spec fn spec_read_len(&self) -> u64 {
        if self.pos < self.len {
            if self.len - self.pos < ZERO_READ_BLOCK {
                (self.len - self.pos) as u64
            } else {
                ZERO_READ_BLOCK
            }
        } else {
            0
        }
    }

    /// How many zeros the next read hands out: what is left, at most one block.
    pub fn read_len(&self) -> (r: u64)
        ensures
            r == self.spec_read_len(),
            self.pos >= self.len ==> r == 0,
            self.pos < self.len ==> {
                &&& 0 < r <= 32768
                &&& r <= self.len - self.pos
                &&& (r == 32768 || r == self.len - self.pos)
            },
    {
        if self.pos < self.len {
            let left = self.len - self.pos;
            if left < ZERO_READ_BLOCK {
                left
            } else {
                ZERO_READ_BLOCK
            }
        } else {
            0
        }
    }

    /// Moves the read position.
    pub fn start_seek(&mut self, pos: u64)
        ensures
            final(self).len == old(self).len,
            final(self).pos == pos,
    {
        self.pos = pos;
    }
}

/// A read from inside the body hands out the smaller of what is left and one
/// block of 32768 zeros, so never nothing; a read from the end or past it hands
/// out nothing.
pub proof fn lemma_read_is_left_or_a_block(body: ZeroBody)
    ensures
        body.pos >= body.len ==> body.spec_read_len() == 0,
        body.pos < body.len ==> {
            &&& 0 < body.spec_read_len() <= 32768
            &&& body.spec_read_len() <= body.len - body.pos
            &&& (body.spec_read_len() == 32768 || body.spec_read_len() == body.len - body.pos)
        },
{
}

} // verus!

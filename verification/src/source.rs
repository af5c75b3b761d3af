//! The byte-source abstraction that both readers wrap.

use vstd::prelude::*;
use vstd::pervasive::VecAdditionalExecFns;
use crate::errors::SourceError;

verus! {

/// A poll-style producer of bytes. A source hands out some prefix of its
/// remaining stream on each call; a successful zero-byte read signals
/// end-of-data (it may only happen when the stream is exhausted or the
/// caller offered no room).
pub trait ByteSource: Sized {
    /// The bytes this source has not yet delivered.
    spec fn remaining(&self) -> Seq<u8>;

    /// Which errors this source may report, so that a wrapper's caller can
    /// tell a propagated error is one of the source's own.
    spec fn may_fail_with(&self, e: SourceError) -> bool;

    /// Read up to `dest.len()` bytes into `dest[0..n]`, returning how many
    /// were written. Bytes beyond the written region are kept.
    fn read(&mut self, dest: &mut Vec<u8>) -> (r: Result<usize, SourceError>)
        ensures
            final(dest)@.len() == old(dest)@.len(),
            match r {
                Ok(n) => {
                    &&& n <= old(dest)@.len()
                    &&& n <= old(self).remaining().len()
                    &&& final(dest)@ == old(self).remaining().take(n as int)
                        + old(dest)@.skip(n as int)
                    &&& final(self).remaining() == old(self).remaining().skip(n as int)
                    &&& (n == 0 ==> old(self).remaining().len() == 0 || old(dest)@.len() == 0)
                },
                Err(e) => {
                    &&& old(self).may_fail_with(e)
                    &&& final(self).remaining() == old(self).remaining()
                    &&& final(dest)@ == old(dest)@
                },
            },
    ;
}

/// An in-memory source: a cursor over an owned byte vector, delivering at
/// most a fixed number of bytes per call so that short reads can be exercised.
pub struct VecSource {
    data: Vec<u8>,
    at: usize,
    chunk: usize,
}

impl VecSource {
    #[verifier::type_invariant]
    spec fn inv(&self) -> bool {
        &&& self.at <= self.data@.len()
        &&& self.chunk >= 1
    }

    /// The most bytes this source hands out per call.
    pub closed spec fn chunk_limit(&self) -> int {
        self.chunk as int
    }

    /// A source delivering as much as the destination allows on each call.
    pub fn new(data: Vec<u8>) -> (r: Self)
        ensures
            r.remaining() == data@,
    {
        let r = VecSource { data, at: 0, chunk: usize::MAX };
        proof {
            assert(r.remaining() =~= r.data@);
        }
        r
    }

    /// A source delivering at most `chunk` bytes per call.
    pub fn with_chunk(data: Vec<u8>, chunk: usize) -> (r: Self)
        requires
            chunk >= 1,
        ensures
            r.remaining() == data@,
            r.chunk_limit() == chunk,
    {
        let r = VecSource { data, at: 0, chunk };
        proof {
            assert(r.remaining() =~= r.data@);
        }
        r
    }
}

impl ByteSource for VecSource {
    closed spec fn remaining(&self) -> Seq<u8> {
        self.data@.skip(self.at as int)
    }

    /// This source never fails.
    closed spec fn may_fail_with(&self, e: SourceError) -> bool {
        false
    }

    fn read(&mut self, dest: &mut Vec<u8>) -> (r: Result<usize, SourceError>)
        ensures
            final(self).chunk_limit() == old(self).chunk_limit(),
            r matches Ok(n) && n == vstd::math::min(
                vstd::math::min(old(self).remaining().len() as int, old(dest)@.len() as int),
                old(self).chunk_limit(),
            ),
    {
        proof {
            use_type_invariant(&*self);
        }
        let room = dest.len();
        let left = self.data.len() - self.at;
        let mut n: usize = if left < room { left } else { room };
        if self.chunk < n {
            n = self.chunk;
        }
        let mut i: usize = 0;
        while i < n
            invariant
                i <= n,
                n <= dest@.len(),
                dest@.len() <= usize::MAX,
                self.at + n <= self.data@.len(),
                self.data@.len() <= usize::MAX,
                dest@.len() == old(dest)@.len(),
                self == old(self),
                forall|j: int| 0 <= j < i ==> dest@[j] == self.data@[self.at + j],
                forall|j: int| i <= j < dest@.len() ==> dest@[j] == old(dest)@[j],
            decreases n - i,
        {
            let b = self.data[self.at + i];
            dest.set(i, b);
            i = i + 1;
        }
        proof {
            assert(dest@ =~= old(self).remaining().take(n as int) + old(dest)@.skip(n as int));
        }
        self.at = self.at + n;
        proof {
            assert(self.remaining() =~= old(self).remaining().skip(n as int));
        }
        Ok(n)
    }
}

/// A source that always fails with a fixed error and holds no data, for
/// exercising error propagation.
pub struct FailingSource {
    code: u64,
}

impl FailingSource {
    /// The error code every read reports.
    pub closed spec fn code(&self) -> u64 {
        self.code
    }

    pub fn new(code: u64) -> (r: Self)
        ensures
            r.remaining() == Seq::<u8>::empty(),
            r.code() == code,
    {
        FailingSource { code }
    }
}

impl ByteSource for FailingSource {
    closed spec fn remaining(&self) -> Seq<u8> {
        Seq::empty()
    }

    closed spec fn may_fail_with(&self, e: SourceError) -> bool {
        e.code == self.code
    }

    fn read(&mut self, dest: &mut Vec<u8>) -> (r: Result<usize, SourceError>)
        ensures
            final(self).code() == old(self).code(),
            r matches Err(e) && e.code == old(self).code(),
    {
        Err(SourceError { code: self.code })
    }
}

} // verus!

//! The observing reader: a pass-through wrapper with an observation callback.

use vstd::prelude::*;
use vstd::slice::slice_subrange;
use crate::errors::SourceError;
use crate::observer::Observer;
use crate::source::ByteSource;

verus! {

/// A reader which forwards bytes unchanged from an inner source and shows
/// every delivered chunk to an observer, so that the bytes can be tapped
/// (hashed, counted, copied) without altering the stream.
pub struct ObservedReader<R, F> {
    inner: R,
    f: F,
    base: Ghost<Seq<u8>>,
    forwarded: Ghost<Seq<u8>>,
}

impl<R: ByteSource, F: Observer> ObservedReader<R, F> {
    /// Everything the observer has been shown.
    pub closed spec fn observer_log(&self) -> Seq<u8> {
        self.f.log()
    }

    /// What the observer had already been shown when this reader was built.
    pub closed spec fn observer_base(&self) -> Seq<u8> {
        self.base@
    }

    /// Every byte this reader has delivered to its caller, in order.
    pub closed spec fn output(&self) -> Seq<u8> {
        self.forwarded@
    }

    /// The bytes the inner source has not yet produced.
    pub closed spec fn source_remaining(&self) -> Seq<u8> {
        self.inner.remaining()
    }

    /// The inner source itself.
    pub closed spec fn source(&self) -> R {
        self.inner
    }

    /// Observation fidelity: the observer has been shown exactly the bytes
    /// delivered to the caller, in order, and nothing else.
    pub open spec fn wf(&self) -> bool {
        self.observer_log() == self.observer_base() + self.output()
    }

    pub fn new(inner: R, f: F) -> (r: Self)
        ensures
            r.wf(),
            r.output() == Seq::<u8>::empty(),
            r.observer_base() == f.log(),
            r.source_remaining() == inner.remaining(),
    {
        let r = ObservedReader { inner, f, base: Ghost(f.log()), forwarded: Ghost(Seq::empty()) };
        proof {
            assert(r.observer_log() =~= r.observer_base() + r.output());
        }
        r
    }

    /// The observer, for inspecting what has been seen.
    pub fn observer(&self) -> (r: &F)
        ensures
            r.log() == self.observer_log(),
    {
        &self.f
    }

    /// Give the wrapped source and the observer back.
    pub fn into_parts(self) -> (r: (R, F))
        ensures
            r.0.remaining() == self.source_remaining(),
            r.1.log() == self.observer_log(),
    {
        (self.inner, self.f)
    }

    /// Read the next chunk of the stream into `dest[0..n]`, showing exactly
    /// that chunk to the observer. `Ok(0)` is returned only at end-of-data
    /// (or when `dest` is empty); a source error is propagated unchanged and
    /// the observer is not invoked for that call.
    pub fn read(&mut self, dest: &mut Vec<u8>) -> (r: Result<usize, SourceError>)
        requires
            old(self).wf(),
        ensures
            final(self).wf(),
            final(self).observer_base() == old(self).observer_base(),
            final(dest)@.len() == old(dest)@.len(),
            match r {
                Ok(n) => {
                    &&& n <= old(dest)@.len()
                    &&& n <= old(self).source_remaining().len()
                    &&& final(dest)@ == old(self).source_remaining().take(n as int)
                        + old(dest)@.skip(n as int)
                    &&& final(self).source_remaining()
                        == old(self).source_remaining().skip(n as int)
                    &&& final(self).output()
                        == old(self).output() + old(self).source_remaining().take(n as int)
                    &&& (n == 0 ==> old(self).source_remaining().len() == 0
                        || old(dest)@.len() == 0)
                },
                Err(e) => {
                    &&& old(self).source().may_fail_with(e)
                    &&& final(self).output() == old(self).output()
                    &&& final(self).observer_log() == old(self).observer_log()
                    &&& final(self).source_remaining() == old(self).source_remaining()
                    &&& final(dest)@ == old(dest)@
                },
            },
    {
        match self.inner.read(dest) {
            Ok(n) => {
                let chunk = slice_subrange(dest.as_slice(), 0, n);
                self.f.observe(chunk);
                proof {
                    assert(chunk@ =~= old(self).source_remaining().take(n as int));
                    self.forwarded@ = self.forwarded@ + chunk@;
                    assert(self.f.log() =~= self.base@ + self.forwarded@);
                    assert(final(dest)@ =~= old(self).source_remaining().take(n as int)
                        + old(dest)@.skip(n as int));
                }
                Ok(n)
            },
            Err(e) => Err(e),
        }
    }
}

/// Observation fidelity: over any sequence of reads, the concatenation of the
/// chunks shown to the observer equals the concatenation of the bytes
/// delivered to the caller, in the same order.
pub proof fn lemma_observation_fidelity<R: ByteSource, F: Observer>(r: &ObservedReader<R, F>)
    requires
        r.wf(),
    ensures
        r.observer_log() == r.observer_base() + r.output(),
{
}

} // verus!

//! The observation callback for the observing reader.

use vstd::prelude::*;

verus! {

/// A stateful callback that is shown each chunk of bytes an observing reader
/// delivers. Its whole history is modelled as the log of all bytes seen.
pub trait Observer: Sized {
    /// Every byte this observer has been shown, in order.
    spec fn log(&self) -> Seq<u8>;

    /// Observe one chunk: the log grows by exactly that chunk.
    fn observe(&mut self, chunk: &[u8])
        ensures
            final(self).log() == old(self).log() + chunk@,
    ;
}

/// An observer that copies everything it is shown into an owned vector.
pub struct VecObserver {
    seen: Vec<u8>,
}

impl VecObserver {
    pub fn new() -> (r: Self)
        ensures
            r.log() == Seq::<u8>::empty(),
    {
        let r = VecObserver { seen: Vec::new() };
        proof {
            assert(r.log() =~= Seq::<u8>::empty());
        }
        r
    }

    /// The bytes observed so far.
    pub fn seen(&self) -> (r: &Vec<u8>)
        ensures
            r@ == self.log(),
    {
        &self.seen
    }
}

impl Observer for VecObserver {
    closed spec fn log(&self) -> Seq<u8> {
        self.seen@
    }

    fn observe(&mut self, chunk: &[u8]) {
        self.seen.extend_from_slice(chunk);
    }
}

} // verus!

//! A convenience trait for wrapping any byte source directly.

use vstd::prelude::*;
use crate::mapped::{MappedReader, DEFAULT_CAPACITY};
use crate::observed::ObservedReader;
use crate::observer::Observer;
use crate::source::ByteSource;
use crate::transform::Transform;

verus! {

/// Wrapping helpers available on every [`ByteSource`].
pub trait AsyncReadUtil: ByteSource + Sized {
    /// Observe the bytes read from `self` with the given observer. Refer to
    /// [`ObservedReader`] for more info.
    fn observe<F: Observer>(self, f: F) -> (r: ObservedReader<Self, F>)
        ensures
            r.wf(),
            r.output() == Seq::<u8>::empty(),
            r.observer_base() == f.log(),
            r.source_remaining() == self.remaining(),
    ;

    /// Map the bytes read from `self` into a new buffer with the given
    /// transform. Refer to [`MappedReader`] for more info.
    fn map_read<T: Transform>(self, t: T) -> (r: MappedReader<Self, T>)
        ensures
            r.wf(),
            r.capacity() == DEFAULT_CAPACITY,
            r.room() == DEFAULT_CAPACITY,
            r.initial() == self.remaining(),
            r.output() == Seq::<u8>::empty(),
            r.taken() == Seq::<u8>::empty(),
            r.staged() == Seq::<u8>::empty(),
            r.source_remaining() == self.remaining(),
            !r.is_done(),
    ;
}

impl<R: ByteSource + Sized> AsyncReadUtil for R {
    fn observe<F: Observer>(self, f: F) -> (r: ObservedReader<Self, F>) {
        ObservedReader::new(self, f)
    }

    fn map_read<T: Transform>(self, t: T) -> (r: MappedReader<Self, T>) {
        MappedReader::new(self, t)
    }
}

} // verus!

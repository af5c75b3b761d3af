//! The mapping reader: a staging buffer, a transform, and the state machine
//! that reconciles how much the source produced, how much the transform
//! consumed, and how much the caller's destination can hold.

use vstd::prelude::*;
use vstd::pervasive::VecAdditionalExecFns;
use vstd::slice::slice_subrange;
use crate::errors::ReadError;
use crate::source::ByteSource;
use crate::transform::{lemma_emit_empty, IdentityTransform, Transform};
use crate::transform::{duplicated, lemma_duplicated_len, DuplicateTransform};
use crate::transform::{lemma_pair_min_len, pair_min, PairMinTransform};

verus! {

/// The staging capacity used when none is chosen.
pub const DEFAULT_CAPACITY: usize = 8096;

/// The staging state of a mapping reader, without its source: a fixed
/// buffer, the window `[pos, cap)` of staged bytes not yet consumed by the
/// transform, and the end-of-data flag. Bytes enter through `accept` and
/// leave, reshaped, through `produce`.
pub struct MappedBuffer<T> {
    t: T,
    buf: Vec<u8>,
    pos: usize,
    cap: usize,
    done: bool,
    intake: Ghost<Seq<u8>>,
    taken: Ghost<Seq<u8>>,
    produced: Ghost<Seq<u8>>,
}

impl<T: Transform> MappedBuffer<T> {
    /// The fixed size of the staging buffer.
    pub closed spec fn capacity(&self) -> int {
        self.buf@.len() as int
    }

    /// The staged bytes: accepted from the source, not yet consumed.
    pub closed spec fn staged(&self) -> Seq<u8> {
        self.buf@.subrange(self.pos as int, self.cap as int)
    }

    /// Whether end-of-data was accepted (a zero-length chunk).
    pub closed spec fn is_done(&self) -> bool {
        self.done
    }

    /// Every byte ever accepted from the source, in order.
    pub closed spec fn intake(&self) -> Seq<u8> {
        self.intake@
    }

    /// Every byte the transform has consumed, in order.
    pub closed spec fn taken(&self) -> Seq<u8> {
        self.taken@
    }

    /// Every byte handed out by `produce`, in order.
    pub closed spec fn output(&self) -> Seq<u8> {
        self.produced@
    }

    /// How many bytes the buffer can accept before its end is reached.
    pub closed spec fn room(&self) -> int {
        self.buf@.len() - self.cap
    }

    /// Well-formed: the window is inside the buffer, the transform sits on a
    /// unit boundary, the output is exactly the transform of the consumed
    /// bytes, and every accepted byte is either consumed or still staged.
    pub closed spec fn wf(&self) -> bool {
        &&& self.pos <= self.cap <= self.buf@.len()
        &&& self.buf@.len() >= 1
        &&& T::complete(self.taken@)
        &&& self.produced@ == T::emit(self.taken@)
        &&& self.intake@ == self.taken@ + self.staged()
    }

    pub fn new(capacity: usize, t: T) -> (r: Self)
        requires
            capacity >= 1,
        ensures
            r.wf(),
            r.capacity() == capacity,
            !r.is_done(),
            r.staged() == Seq::<u8>::empty(),
            r.intake() == Seq::<u8>::empty(),
            r.taken() == Seq::<u8>::empty(),
            r.output() == Seq::<u8>::empty(),
            r.room() == capacity,
    {
        let buf: Vec<u8> = vec![0u8; capacity];
        let r = MappedBuffer {
            t,
            buf,
            pos: 0,
            cap: 0,
            done: false,
            intake: Ghost(Seq::empty()),
            taken: Ghost(Seq::empty()),
            produced: Ghost(Seq::empty()),
        };
        proof {
            T::complete_empty();
            lemma_emit_empty::<T>();
            assert(r.staged() =~= Seq::<u8>::empty());
            assert(r.intake@ =~= r.taken@ + r.staged());
        }
        r
    }

    /// The reset step: once everything staged has been consumed, the window
    /// moves back to the buffer's start so a fill can use the whole buffer.
    pub fn prepare(&mut self)
        requires
            old(self).wf(),
        ensures
            final(self).wf(),
            final(self).capacity() == old(self).capacity(),
            final(self).staged() == old(self).staged(),
            final(self).is_done() == old(self).is_done(),
            final(self).intake() == old(self).intake(),
            final(self).taken() == old(self).taken(),
            final(self).output() == old(self).output(),
            final(self).room() == if old(self).staged().len() == 0 {
                old(self).capacity()
            } else {
                old(self).room()
            },
    {
        if self.pos == self.cap {
            self.pos = 0;
            self.cap = 0;
            proof {
                assert(self.staged() =~= old(self).staged());
                assert(self.intake@ =~= self.taken@ + self.staged());
            }
        }
    }

    /// Whether end-of-data was accepted and nothing staged remains.
    pub fn is_drained(&self) -> (r: bool)
        requires
            self.wf(),
        ensures
            r == (self.is_done() && self.staged().len() == 0),
    {
        self.done && self.pos == self.cap
    }

    /// Whether a fill is wanted: not yet at end-of-data and room remains.
    pub fn wants_fill(&self) -> (r: bool)
        requires
            self.wf(),
        ensures
            r == (!self.is_done() && self.room() > 0),
    {
        !self.done && self.cap < self.buf.len()
    }

    /// How many bytes `accept` can take.
    pub fn fill_room(&self) -> (r: usize)
        requires
            self.wf(),
        ensures
            r == self.room(),
    {
        self.buf.len() - self.cap
    }

    /// The fill step: append a chunk read from the source to the staged
    /// bytes. An empty chunk is the source's end-of-data signal and sets the
    /// done flag.
    pub fn accept(&mut self, chunk: &[u8])
        requires
            old(self).wf(),
            !old(self).is_done(),
            chunk@.len() <= old(self).room(),
        ensures
            final(self).wf(),
            final(self).capacity() == old(self).capacity(),
            final(self).staged() == old(self).staged() + chunk@,
            final(self).intake() == old(self).intake() + chunk@,
            final(self).taken() == old(self).taken(),
            final(self).output() == old(self).output(),
            final(self).is_done() == (chunk@.len() == 0),
            final(self).room() == old(self).room() - chunk@.len(),
    {
        let len = chunk.len();
        let total = self.buf.len();
        let mut i: usize = 0;
        while i < len
            invariant
                i <= len,
                self.cap + len <= self.buf@.len(),
                self.buf@.len() == total,
                self.buf@.len() == old(self).buf@.len(),
                self.pos == old(self).pos,
                self.cap == old(self).cap,
                self.done == old(self).done,
                self.t == old(self).t,
                self.intake@ == old(self).intake@,
                self.taken@ == old(self).taken@,
                self.produced@ == old(self).produced@,
                len == chunk@.len(),
                forall|j: int| 0 <= j < self.cap + i ==> self.buf@[j] == old(self).buf@[j]
                    || (self.cap <= j && self.buf@[j] == chunk@[j - self.cap]),
                forall|j: int| 0 <= j < self.cap ==> self.buf@[j] == old(self).buf@[j],
                forall|j: int| self.cap <= j < self.cap + i ==> self.buf@[j] == chunk@[j
                    - self.cap],
            decreases len - i,
        {
            let b = chunk[i];
            self.buf.set(self.cap + i, b);
            i = i + 1;
        }
        self.cap = self.cap + len;
        if len == 0 {
            self.done = true;
        }
        proof {
            self.intake@ = self.intake@ + chunk@;
            assert(self.staged() =~= old(self).staged() + chunk@);
            assert((self.taken@ + old(self).staged()) + chunk@ =~= self.taken@ + (old(
                self,
            ).staged() + chunk@));
            assert(self.intake@ =~= self.taken@ + self.staged());
        }
    }

    /// The transform step: hand the staged bytes and the caller's
    /// destination to the transform, guard its reported counts, compact the
    /// staged bytes to the buffer's start when it consumed nothing (so the
    /// next fill has room to stage more), and advance past what it consumed.
    ///
    /// The two error variants guard against a callback that misreports its
    /// counts; a callback meeting its contract never triggers them.
    pub fn produce(&mut self, dest: &mut Vec<u8>) -> (r: Result<usize, ReadError>)
        requires
            old(self).wf(),
        ensures
            final(self).wf(),
            final(self).capacity() == old(self).capacity(),
            final(self).intake() == old(self).intake(),
            final(self).is_done() == old(self).is_done(),
            final(dest)@.len() == old(dest)@.len(),
            r is Ok,
            r matches Ok(n) ==> ({
                let k = final(self).taken().len() - old(self).taken().len();
                &&& 0 <= k <= old(self).staged().len()
                &&& final(self).taken() == old(self).taken() + old(self).staged().take(k)
                &&& final(self).staged() == old(self).staged().skip(k)
                &&& final(self).output() == old(self).output() + T::emit(
                    old(self).staged().take(k),
                )
                &&& n == T::emit(old(self).staged().take(k)).len()
                &&& n <= old(dest)@.len()
                &&& final(dest)@ == T::emit(old(self).staged().take(k)) + old(dest)@.skip(
                    n as int,
                )
                &&& k >= T::min_consume(old(self).staged().len() as int, old(dest)@.len() as int)
                &&& (k == 0 && final(self).staged().len() > 0 ==> final(self).room()
                    == final(self).capacity() - final(self).staged().len())
            }),
    {
        let src = slice_subrange(self.buf.as_slice(), self.pos, self.cap);
        let (nsrc, ndst) = self.t.transform(src, dest);
        if ndst > dest.len() {
            return Err(ReadError::DestOverflow);
        }
        if nsrc > self.cap - self.pos {
            return Err(ReadError::SourceOverrun);
        }
        let ghost delta = src@.take(nsrc as int);
        if nsrc == 0 && self.cap > self.pos {
            // Compact the staged bytes to the front: copying forward, each
            // byte is read before any write could reach it.
            let len = self.cap - self.pos;
            let total = self.buf.len();
            let mut i: usize = 0;
            while i < len
                invariant
                    i <= len,
                    0 < len <= self.buf@.len(),
                    self.pos + len <= self.buf@.len(),
                    self.buf@.len() == total,
                    self.pos == old(self).pos,
                    self.cap == old(self).cap,
                    self.done == old(self).done,
                    self.intake@ == old(self).intake@,
                    self.taken@ == old(self).taken@,
                    self.produced@ == old(self).produced@,
                    len == self.cap - self.pos,
                    self.buf@.len() == old(self).buf@.len(),
                    forall|j: int| 0 <= j < i ==> self.buf@[j] == old(self).buf@[self.pos + j],
                    forall|j: int| i <= j < self.buf@.len() ==> self.buf@[j]
                        == old(self).buf@[j],
                decreases len - i,
            {
                let b = self.buf[self.pos + i];
                self.buf.set(i, b);
                i = i + 1;
            }
            self.pos = 0;
            self.cap = len;
            proof {
                assert(self.staged() =~= old(self).staged());
            }
        }
        self.pos = self.pos + nsrc;
        proof {
            assert(src@ == old(self).staged());
            assert(self.taken@ == old(self).taken@);
            assert(T::complete(self.taken@));
            assert(T::complete(delta));
            T::complete_append(self.taken@, delta);
            T::emit_append(self.taken@, delta);
            self.taken@ = self.taken@ + delta;
            self.produced@ = self.produced@ + T::emit(delta);
            assert(self.staged() =~= old(self).staged().skip(nsrc as int));
            assert(old(self).staged() =~= delta + self.staged());
            assert(self.intake@ =~= self.taken@ + self.staged()) by {
                assert(self.intake@ =~= (old(self).taken@ + delta) + self.staged());
            }
        }
        Ok(ndst)
    }
}

/// A reader which pulls bytes from an inner source through a staging buffer
/// and reshapes them with a transform before delivering them, placing no
/// constraint on how the source's chunk sizes, the transform's consumption,
/// and the caller's destination sizes relate.
pub struct MappedReader<R, T> {
    inner: R,
    state: MappedBuffer<T>,
    start: Ghost<Seq<u8>>,
}

impl<R: ByteSource, T: Transform> MappedReader<R, T> {
    /// The fixed size of the staging buffer.
    pub closed spec fn capacity(&self) -> int {
        self.state.capacity()
    }

    /// What the source still held when this reader was built.
    pub closed spec fn initial(&self) -> Seq<u8> {
        self.start@
    }

    /// The bytes the inner source has not yet produced.
    pub closed spec fn source_remaining(&self) -> Seq<u8> {
        self.inner.remaining()
    }

    /// The inner source itself.
    pub closed spec fn source(&self) -> R {
        self.inner
    }

    /// Staged bytes: pulled from the source, not yet consumed.
    pub closed spec fn staged(&self) -> Seq<u8> {
        self.state.staged()
    }

    /// Every byte the transform has consumed, in order.
    pub closed spec fn taken(&self) -> Seq<u8> {
        self.state.taken()
    }

    /// Every byte delivered to the caller, in order.
    pub closed spec fn output(&self) -> Seq<u8> {
        self.state.output()
    }

    /// Whether the source has signalled end-of-data.
    pub closed spec fn is_done(&self) -> bool {
        self.state.is_done()
    }

    /// How many bytes the staging buffer can still take.
    pub closed spec fn room(&self) -> int {
        self.state.room()
    }

    /// The bytes not yet consumed by the transform: staged ones first, then
    /// whatever the source still holds.
    pub open spec fn pending(&self) -> Seq<u8> {
        self.staged() + self.source_remaining()
    }

    /// Well-formed: the staging state is, the source is exhausted once the
    /// done flag is set, and the original stream splits exactly into the
    /// consumed bytes followed by the pending ones.
    pub closed spec fn wf(&self) -> bool {
        &&& self.state.wf()
        &&& (self.state.is_done() ==> self.inner.remaining().len() == 0)
        &&& self.start@ == self.state.taken() + self.pending()
    }

    /// Fully drained: end-of-data was reached and nothing is staged, so
    /// every read from now on returns zero bytes.
    pub open spec fn finished(&self) -> bool {
        self.is_done() && self.staged().len() == 0
    }

    pub fn new(inner: R, t: T) -> (r: Self)
        ensures
            r.wf(),
            r.capacity() == DEFAULT_CAPACITY,
            r.room() == DEFAULT_CAPACITY,
            r.initial() == inner.remaining(),
            r.output() == Seq::<u8>::empty(),
            r.taken() == Seq::<u8>::empty(),
            r.staged() == Seq::<u8>::empty(),
            r.source_remaining() == inner.remaining(),
            !r.is_done(),
    {
        Self::with_capacity(DEFAULT_CAPACITY, inner, t)
    }

    pub fn with_capacity(capacity: usize, inner: R, t: T) -> (r: Self)
        requires
            capacity >= 1,
        ensures
            r.wf(),
            r.capacity() == capacity,
            r.room() == capacity,
            r.initial() == inner.remaining(),
            r.output() == Seq::<u8>::empty(),
            r.taken() == Seq::<u8>::empty(),
            r.staged() == Seq::<u8>::empty(),
            r.source_remaining() == inner.remaining(),
            !r.is_done(),
    {
        let state = MappedBuffer::new(capacity, t);
        let r = MappedReader { inner, state, start: Ghost(inner.remaining()) };
        proof {
            assert(r.pending() =~= r.inner.remaining());
            assert(r.start@ =~= r.state.taken() + r.pending());
        }
        r
    }

    /// Whether this reader is finished: every further read returns zero.
    pub fn is_finished(&self) -> (r: bool)
        requires
            self.wf(),
        ensures
            r == self.finished(),
    {
        self.state.is_drained()
    }

    /// A measure that every successful read shrinks while draining: bytes
    /// not yet consumed, plus bytes still inside the source, plus one while
    /// end-of-data has not been seen.
    pub open spec fn drain_measure(&self) -> int {
        self.pending().len() + self.source_remaining().len() + if self.is_done() {
            0int
        } else {
            1int
        }
    }

    /// Read the next reshaped bytes into `dest[0..n]`.
    ///
    /// One call makes at most one pull from the source and exactly one
    /// transform invocation: some prefix of the pending bytes is consumed and
    /// its transform is delivered. A source error is propagated unchanged,
    /// before any byte is consumed or delivered. Once the reader is finished,
    /// every call returns `Ok(0)` without touching the source again.
    pub fn read(&mut self, dest: &mut Vec<u8>) -> (r: Result<usize, ReadError>)
        requires
            old(self).wf(),
        ensures
            final(self).wf(),
            final(self).capacity() == old(self).capacity(),
            final(self).initial() == old(self).initial(),
            final(dest)@.len() == old(dest)@.len(),
            old(self).is_done() ==> final(self).is_done(),
            old(self).is_done() ==> final(self).source() == old(self).source(),
            old(self).is_done() ==> r is Ok,
            match r {
                Ok(n) => ({
                    let k = final(self).taken().len() - old(self).taken().len();
                    &&& 0 <= k <= old(self).pending().len()
                    &&& final(self).taken() == old(self).taken() + old(self).pending().take(k)
                    &&& final(self).pending() == old(self).pending().skip(k)
                    &&& final(self).output() == old(self).output() + T::emit(
                        old(self).pending().take(k),
                    )
                    &&& n == T::emit(old(self).pending().take(k)).len()
                    &&& n <= old(dest)@.len()
                    &&& final(dest)@ == T::emit(old(self).pending().take(k)) + old(
                        dest,
                    )@.skip(n as int)
                    &&& (old(self).finished() ==> n == 0 && final(self).finished())
                    &&& (k == 0 && final(self).staged().len() > 0 ==> final(self).room()
                        == final(self).capacity() - final(self).staged().len())
                    &&& ({
                        let m = old(self).source_remaining().len()
                            - final(self).source_remaining().len();
                        &&& 0 <= m
                        &&& final(self).source_remaining() == old(
                            self,
                        ).source_remaining().skip(m)
                        &&& k >= T::min_consume(
                            old(self).staged().len() + m,
                            old(dest)@.len() as int,
                        )
                    })
                    &&& (!old(self).is_done() && old(self).source_remaining().len() == 0 && (
                    old(self).staged().len() == 0 || old(self).room() > 0)
                        ==> final(self).is_done())
                    &&& (!old(self).is_done() && old(self).source_remaining().len() > 0 && (
                    old(self).staged().len() == 0 || old(self).room() > 0)
                        ==> final(self).source_remaining().len() < old(
                        self,
                    ).source_remaining().len())
                }),
                Err(e) => ({
                    &&& (e matches ReadError::Source(se) && old(self).source().may_fail_with(
                        se,
                    ))
                    &&& final(self).is_done() == old(self).is_done()
                    &&& final(self).taken() == old(self).taken()
                    &&& final(self).output() == old(self).output()
                    &&& final(self).staged() == old(self).staged()
                    &&& final(self).source_remaining() == old(self).source_remaining()
                    &&& final(self).pending() == old(self).pending()
                    &&& final(dest)@ == old(dest)@
                }),
            },
    {
        self.state.prepare();
        if self.state.wants_fill() {
            let want = self.state.fill_room();
            let mut scratch: Vec<u8> = vec![0u8; want];
            match self.inner.read(&mut scratch) {
                Ok(m) => {
                    let chunk = slice_subrange(scratch.as_slice(), 0, m);
                    proof {
                        assert(chunk@ =~= old(self).source_remaining().take(m as int));
                    }
                    self.state.accept(chunk);
                    proof {
                        assert(self.pending() =~= old(self).pending());
                        assert(self.start@ =~= self.state.taken() + self.pending());
                    }
                },
                Err(e) => {
                    proof {
                        assert(self.pending() =~= old(self).pending());
                    }
                    return Err(ReadError::Source(e));
                },
            }
        }
        let ghost mid = *self;
        let r = self.state.produce(dest);
        proof {
            let k = self.state.taken().len() - mid.state.taken().len();
            assert(mid.staged().take(k) =~= old(self).pending().take(k));
            assert(self.pending() =~= old(self).pending().skip(k)) by {
                assert(self.staged() =~= mid.staged().skip(k));
                assert(self.pending() =~= mid.staged().skip(k) + mid.source_remaining());
                assert(old(self).pending().skip(k) =~= mid.staged().skip(k)
                    + mid.source_remaining());
            }
            assert(self.start@ =~= self.state.taken() + self.pending());
            if old(self).finished() {
                lemma_emit_empty::<T>();
                assert(mid.staged().take(k) =~= Seq::<u8>::empty());
            }
        }
        match r {
            Ok(n) => Ok(n),
            Err(e) => Err(e),
        }
    }

    /// Drain the whole stream: read repeatedly, `step` destination bytes at
    /// a time, appending every delivered byte to `out`, until the reader is
    /// finished. The progress hypothesis is the documented callback
    /// obligation — the transform consumes something whenever staged bytes
    /// and `step` bytes of destination room are offered — and under it this
    /// loop provably terminates, delivering the transform of the entire
    /// stream.
    pub fn read_to_end(&mut self, out: &mut Vec<u8>, step: usize) -> (r: Result<(), ReadError>)
        requires
            old(self).wf(),
            step >= 1,
            forall|s: int| 0 < s ==> #[trigger] T::min_consume(s, step as int) > 0,
        ensures
            final(self).wf(),
            final(self).initial() == old(self).initial(),
            final(self).capacity() == old(self).capacity(),
            match r {
                Ok(()) => {
                    &&& final(self).finished()
                    &&& final(self).taken() == final(self).initial()
                    &&& final(self).output() == T::emit(final(self).initial())
                    &&& final(out)@ == old(out)@ + final(self).output().skip(
                        old(self).output().len() as int,
                    )
                    &&& (old(self).output() == Seq::<u8>::empty() ==> final(out)@ == old(out)@
                        + T::emit(old(self).initial()))
                },
                Err(e) => {
                    &&& e is Source
                    &&& final(out)@ == old(out)@ + final(self).output().skip(
                        old(self).output().len() as int,
                    )
                },
            },
    {
        let mut buf: Vec<u8> = vec![0u8; step];
        while !self.is_finished()
            invariant
                self.wf(),
                buf@.len() == step,
                step >= 1,
                forall|s: int| 0 < s ==> #[trigger] T::min_consume(s, step as int) > 0,
                self.initial() == old(self).initial(),
                self.capacity() == old(self).capacity(),
                old(self).output().len() <= self.output().len(),
                out@ == old(out)@ + self.output().skip(old(self).output().len() as int),
            decreases self.drain_measure(),
        {
            let ghost pre = *self;
            match self.read(&mut buf) {
                Ok(n) => {
                    let chunk = slice_subrange(buf.as_slice(), 0, n);
                    out.extend_from_slice(chunk);
                    proof {
                        let k = self.taken().len() - pre.taken().len();
                        assert(chunk@ =~= T::emit(pre.pending().take(k)));
                        assert(self.output() =~= pre.output() + chunk@);
                        assert(out@ =~= old(out)@ + self.output().skip(
                            old(self).output().len() as int,
                        ));
                        let m = pre.source_remaining().len()
                            - self.source_remaining().len();
                        if k == 0 {
                            assert(T::min_consume(pre.staged().len() + m, step as int) <= 0);
                            assert(pre.staged().len() == 0 && m == 0);
                            assert(!pre.is_done());
                            assert(pre.source_remaining().len() == 0);
                            assert(self.is_done());
                            assert(self.pending() =~= pre.pending());
                            assert(self.drain_measure() < pre.drain_measure());
                        } else {
                            assert(self.pending().len() == pre.pending().len() - k);
                            assert(self.drain_measure() < pre.drain_measure());
                        }
                    }
                },
                Err(e) => {
                    return Err(e);
                },
            }
        }
        proof {
            lemma_drained_output(&*self);
            if old(self).output() == Seq::<u8>::empty() {
                assert(self.output().skip(0) =~= self.output());
            }
        }
        Ok(())
    }
}

/// At every point, the original stream splits exactly into the bytes the
/// transform has consumed followed by the pending ones, and the output so
/// far is exactly the transform of the consumed prefix.
pub proof fn lemma_stream_split<R: ByteSource, T: Transform>(p: &MappedReader<R, T>)
    requires
        p.wf(),
    ensures
        p.initial() == p.taken() + p.pending(),
        p.output() == T::emit(p.taken()),
        p.is_done() ==> p.source_remaining().len() == 0,
{
}

/// Whatever the transform, a finished reader has consumed exactly the
/// original stream and delivered exactly its transform.
pub proof fn lemma_drained_output<R: ByteSource, T: Transform>(p: &MappedReader<R, T>)
    requires
        p.wf(),
        p.finished(),
    ensures
        p.taken() == p.initial(),
        p.output() == T::emit(p.initial()),
{
    assert(p.pending() =~= Seq::<u8>::empty());
    assert(p.initial() =~= p.taken());
}

/// Identity round trip: a finished reader with the identity transform has
/// delivered the original byte stream exactly, whatever destination sizes
/// and source chunk sizes its reads used.
pub proof fn lemma_identity_round_trip<R: ByteSource>(p: &MappedReader<R, IdentityTransform>)
    requires
        p.wf(),
        p.finished(),
    ensures
        p.output() == p.initial(),
{
    lemma_drained_output(p);
}

/// Expanding transform: a finished reader with the duplicating transform has
/// delivered each source byte twice, twice as many bytes as the source held,
/// however the expansion was split across calls.
pub proof fn lemma_expanding_output<R: ByteSource>(p: &MappedReader<R, DuplicateTransform>)
    requires
        p.wf(),
        p.finished(),
    ensures
        p.output() == duplicated(p.initial()),
        p.output().len() == 2 * p.initial().len(),
{
    lemma_drained_output(p);
    lemma_duplicated_len(p.initial());
}

/// Contracting transform: a finished reader with the pair-folding transform
/// has consumed an even number of bytes and delivered the pairwise minimum
/// of each consecutive pair, half as many bytes as the source held.
pub proof fn lemma_contracting_output<R: ByteSource>(p: &MappedReader<R, PairMinTransform>)
    requires
        p.wf(),
        p.finished(),
    ensures
        p.initial().len() % 2 == 0,
        p.output() == pair_min(p.initial()),
        p.output().len() == p.initial().len() / 2,
{
    lemma_drained_output(p);
    lemma_pair_min_len(p.initial());
}

} // verus!

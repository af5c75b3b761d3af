//! The transform callback for the mapped reader, and ready-made transforms.

use vstd::prelude::*;
use vstd::pervasive::VecAdditionalExecFns;

verus! {

/// A stateful callback that reshapes staged source bytes into destination
/// bytes. On each invocation it consumes some prefix of `src`, writes the
/// corresponding output to the front of `dst`, and reports both counts.
///
/// The output is modelled by `emit`: a pure function from the bytes consumed
/// so far to the bytes produced for them. `complete` marks the consumption
/// boundaries at which the transform is ready to take further input (for a
/// pair-folding transform: even counts), and emitting distributes over such
/// boundaries, so that output produced a piece at a time agrees with the
/// output for the whole stream.
pub trait Transform: Sized {
    /// The bytes produced for a given sequence of consumed source bytes.
    spec fn emit(consumed: Seq<u8>) -> Seq<u8>;

    /// Whether `consumed` ends on a unit boundary of this transform.
    spec fn complete(consumed: Seq<u8>) -> bool;

    /// This transform's progress floor: the fewest source bytes it consumes
    /// when invoked with the given source and destination sizes. A transform
    /// that needs more staged input before it can emit may report zero for
    /// small sizes; a floor that is positive on ample sizes is what lets a
    /// caller show that repeated reads drain a stream.
    spec fn min_consume(src_len: int, dst_len: int) -> int;

    /// Consuming nothing is a unit boundary.
    proof fn complete_empty()
        ensures
            Self::complete(Seq::<u8>::empty()),
    ;

    /// Unit boundaries are closed under concatenation.
    proof fn complete_append(a: Seq<u8>, b: Seq<u8>)
        requires
            Self::complete(a),
            Self::complete(b),
        ensures
            Self::complete(a + b),
    ;

    /// Emitting distributes over a unit boundary.
    proof fn emit_append(a: Seq<u8>, b: Seq<u8>)
        requires
            Self::complete(a),
        ensures
            Self::emit(a + b) == Self::emit(a) + Self::emit(b),
    ;

    /// Consume a prefix of `src`, write its output to the front of `dst`
    /// (keeping the rest of `dst` and its length), and report the counts:
    /// consumed source bytes first, produced destination bytes second.
    fn transform(&mut self, src: &[u8], dst: &mut Vec<u8>) -> (r: (usize, usize))
        ensures
            r.0 <= src@.len(),
            r.1 <= old(dst)@.len(),
            final(dst)@.len() == old(dst)@.len(),
            r.0 >= Self::min_consume(src@.len() as int, old(dst)@.len() as int),
            Self::complete(src@.take(r.0 as int)),
            r.1 == Self::emit(src@.take(r.0 as int)).len(),
            final(dst)@ == Self::emit(src@.take(r.0 as int)) + old(dst)@.skip(r.1 as int),
    ;
}

/// A transform emits nothing when it has consumed nothing.
pub proof fn lemma_emit_empty<T: Transform>()
    ensures
        T::emit(Seq::<u8>::empty()) == Seq::<u8>::empty(),
{
    T::complete_empty();
    T::emit_append(Seq::<u8>::empty(), Seq::<u8>::empty());
    assert(Seq::<u8>::empty() + Seq::<u8>::empty() =~= Seq::<u8>::empty());
    assert(T::emit(Seq::<u8>::empty()) =~= Seq::<u8>::empty());
}

/// Copies bytes through unchanged, as many as source and destination allow.
pub struct IdentityTransform;

impl Transform for IdentityTransform {
    open spec fn min_consume(src_len: int, dst_len: int) -> int {
        vstd::math::min(src_len, dst_len)
    }

    open spec fn emit(consumed: Seq<u8>) -> Seq<u8> {
        consumed
    }

    open spec fn complete(consumed: Seq<u8>) -> bool {
        true
    }

    proof fn complete_empty() {
    }

    proof fn complete_append(a: Seq<u8>, b: Seq<u8>) {
    }

    proof fn emit_append(a: Seq<u8>, b: Seq<u8>) {
    }

    fn transform(&mut self, src: &[u8], dst: &mut Vec<u8>) -> (r: (usize, usize))
        ensures
            r.0 == vstd::math::min(src@.len() as int, old(dst)@.len() as int),
    {
        let n: usize = if src.len() < dst.len() { src.len() } else { dst.len() };
        let mut i: usize = 0;
        while i < n
            invariant
                i <= n,
                n <= src@.len(),
                n <= dst@.len(),
                dst@.len() == old(dst)@.len(),
                forall|j: int| 0 <= j < i ==> dst@[j] == src@[j],
                forall|j: int| i <= j < dst@.len() ==> dst@[j] == old(dst)@[j],
            decreases n - i,
        {
            let b = src[i];
            dst.set(i, b);
            i = i + 1;
        }
        proof {
            assert(dst@ =~= Self::emit(src@.take(n as int)) + old(dst)@.skip(n as int));
        }
        (n, n)
    }
}

/// The value each consumed byte is mapped to by [`HalveTransform`].
pub open spec fn halved(s: Seq<u8>) -> Seq<u8> {
    s.map_values(|b: u8| (b / 2) as u8)
}

/// Maps each byte to its half, as many bytes as source and destination allow:
/// a shape-preserving transform whose content differs from its input.
pub struct HalveTransform;

impl Transform for HalveTransform {
    open spec fn min_consume(src_len: int, dst_len: int) -> int {
        vstd::math::min(src_len, dst_len)
    }

    open spec fn emit(consumed: Seq<u8>) -> Seq<u8> {
        halved(consumed)
    }

    open spec fn complete(consumed: Seq<u8>) -> bool {
        true
    }

    proof fn complete_empty() {
    }

    proof fn complete_append(a: Seq<u8>, b: Seq<u8>) {
    }

    proof fn emit_append(a: Seq<u8>, b: Seq<u8>) {
        assert(halved(a + b) =~= halved(a) + halved(b));
    }

    fn transform(&mut self, src: &[u8], dst: &mut Vec<u8>) -> (r: (usize, usize))
        ensures
            r.0 == vstd::math::min(src@.len() as int, old(dst)@.len() as int),
    {
        let n: usize = if src.len() < dst.len() { src.len() } else { dst.len() };
        let mut i: usize = 0;
        while i < n
            invariant
                i <= n,
                n <= src@.len(),
                n <= dst@.len(),
                dst@.len() == old(dst)@.len(),
                forall|j: int| 0 <= j < i ==> dst@[j] == src@[j] / 2,
                forall|j: int| i <= j < dst@.len() ==> dst@[j] == old(dst)@[j],
            decreases n - i,
        {
            let b = src[i];
            dst.set(i, b / 2);
            i = i + 1;
        }
        proof {
            assert(dst@ =~= Self::emit(src@.take(n as int)) + old(dst)@.skip(n as int));
        }
        (n, n)
    }
}

/// Each byte of `s`, twice in a row.
pub open spec fn duplicated(s: Seq<u8>) -> Seq<u8>
    decreases s.len(),
{
    if s.len() == 0 {
        Seq::empty()
    } else {
        seq![s[0], s[0]] + duplicated(s.skip(1))
    }
}

pub proof fn lemma_duplicated_len(s: Seq<u8>)
    ensures
        duplicated(s).len() == 2 * s.len(),
    decreases s.len(),
{
    if s.len() > 0 {
        lemma_duplicated_len(s.skip(1));
    }
}

pub proof fn lemma_duplicated_index(s: Seq<u8>, k: int)
    requires
        0 <= k < s.len(),
    ensures
        duplicated(s).len() == 2 * s.len(),
        duplicated(s)[2 * k] == s[k],
        duplicated(s)[2 * k + 1] == s[k],
    decreases s.len(),
{
    lemma_duplicated_len(s);
    if k > 0 {
        lemma_duplicated_index(s.skip(1), k - 1);
    }
}

pub proof fn lemma_duplicated_append(a: Seq<u8>, b: Seq<u8>)
    ensures
        duplicated(a + b) == duplicated(a) + duplicated(b),
    decreases a.len(),
{
    if a.len() == 0 {
        assert(a + b =~= b);
        assert(duplicated(a) + duplicated(b) =~= duplicated(b));
    } else {
        lemma_duplicated_append(a.skip(1), b);
        assert((a + b).skip(1) =~= a.skip(1) + b);
        assert(duplicated(a + b) =~= duplicated(a) + duplicated(b));
    }
}

/// Writes every consumed byte to the destination twice, consuming as many
/// bytes as the destination can hold pairs.
pub struct DuplicateTransform;

impl Transform for DuplicateTransform {
    open spec fn min_consume(src_len: int, dst_len: int) -> int {
        vstd::math::min(src_len, dst_len / 2)
    }

    open spec fn emit(consumed: Seq<u8>) -> Seq<u8> {
        duplicated(consumed)
    }

    open spec fn complete(consumed: Seq<u8>) -> bool {
        true
    }

    proof fn complete_empty() {
    }

    proof fn complete_append(a: Seq<u8>, b: Seq<u8>) {
    }

    proof fn emit_append(a: Seq<u8>, b: Seq<u8>) {
        lemma_duplicated_append(a, b);
    }

    fn transform(&mut self, src: &[u8], dst: &mut Vec<u8>) -> (r: (usize, usize))
        ensures
            r.0 == vstd::math::min(src@.len() as int, old(dst)@.len() as int / 2),
    {
        let half: usize = dst.len() / 2;
        let n: usize = if src.len() < half { src.len() } else { half };
        let mut i: usize = 0;
        while i < n
            invariant
                i <= n,
                n <= src@.len(),
                2 * n <= dst@.len(),
                dst@.len() <= usize::MAX,
                dst@.len() == old(dst)@.len(),
                forall|j: int| 0 <= j < i ==> dst@[2 * j] == src@[j] && dst@[2 * j + 1] == src@[j],
                forall|j: int| 2 * i <= j < dst@.len() ==> dst@[j] == old(dst)@[j],
            decreases n - i,
        {
            let b = src[i];
            dst.set(2 * i, b);
            dst.set(2 * i + 1, b);
            i = i + 1;
        }
        proof {
            let e = duplicated(src@.take(n as int));
            lemma_duplicated_len(src@.take(n as int));
            assert forall|j: int| 0 <= j < 2 * n implies dst@[j] == e[j] by {
                let q = j / 2;
                lemma_duplicated_index(src@.take(n as int), q);
                if j % 2 == 0 {
                    assert(j == 2 * q);
                    assert(dst@[2 * q] == src@[q]);
                } else {
                    assert(j == 2 * q + 1);
                    assert(dst@[2 * q + 1] == src@[q]);
                }
            }
            assert(dst@ =~= Self::emit(src@.take(n as int)) + old(dst)@.skip(2 * n as int));
        }
        (n, 2 * n)
    }
}

/// The smaller of two bytes.
pub open spec fn byte_min(a: u8, b: u8) -> u8 {
    if a <= b {
        a
    } else {
        b
    }
}

/// The minimum of each consecutive pair of `s`, in order; a trailing odd
/// byte contributes nothing.
pub open spec fn pair_min(s: Seq<u8>) -> Seq<u8>
    decreases s.len(),
{
    if s.len() < 2 {
        Seq::empty()
    } else {
        seq![byte_min(s[0], s[1])] + pair_min(s.skip(2))
    }
}

pub proof fn lemma_pair_min_len(s: Seq<u8>)
    requires
        s.len() % 2 == 0,
    ensures
        pair_min(s).len() == s.len() / 2,
    decreases s.len(),
{
    if s.len() >= 2 {
        lemma_pair_min_len(s.skip(2));
    }
}

pub proof fn lemma_pair_min_index(s: Seq<u8>, k: int)
    requires
        s.len() % 2 == 0,
        0 <= k < s.len() / 2,
    ensures
        pair_min(s).len() == s.len() / 2,
        pair_min(s)[k] == byte_min(s[2 * k], s[2 * k + 1]),
    decreases s.len(),
{
    lemma_pair_min_len(s);
    if k > 0 {
        lemma_pair_min_index(s.skip(2), k - 1);
    }
}

pub proof fn lemma_pair_min_append(a: Seq<u8>, b: Seq<u8>)
    requires
        a.len() % 2 == 0,
    ensures
        pair_min(a + b) == pair_min(a) + pair_min(b),
    decreases a.len(),
{
    if a.len() == 0 {
        assert(a + b =~= b);
        assert(pair_min(a) + pair_min(b) =~= pair_min(b));
    } else {
        lemma_pair_min_append(a.skip(2), b);
        assert((a + b).skip(2) =~= a.skip(2) + b);
        assert(pair_min(a + b) =~= pair_min(a) + pair_min(b));
    }
}

/// Folds each pair of consumed bytes into their minimum: a contracting
/// transform. It consumes only whole pairs, so with a single staged byte it
/// reports no progress until more input is staged beside it.
pub struct PairMinTransform;

impl Transform for PairMinTransform {
    open spec fn min_consume(src_len: int, dst_len: int) -> int {
        2 * vstd::math::min(src_len / 2, dst_len)
    }

    open spec fn emit(consumed: Seq<u8>) -> Seq<u8> {
        pair_min(consumed)
    }

    open spec fn complete(consumed: Seq<u8>) -> bool {
        consumed.len() % 2 == 0
    }

    proof fn complete_empty() {
    }

    proof fn complete_append(a: Seq<u8>, b: Seq<u8>) {
    }

    proof fn emit_append(a: Seq<u8>, b: Seq<u8>) {
        lemma_pair_min_append(a, b);
    }

    fn transform(&mut self, src: &[u8], dst: &mut Vec<u8>) -> (r: (usize, usize))
        ensures
            r.0 == 2 * vstd::math::min(src@.len() as int / 2, old(dst)@.len() as int),
    {
        let pairs: usize = src.len() / 2;
        let k: usize = if pairs < dst.len() { pairs } else { dst.len() };
        let mut i: usize = 0;
        while i < k
            invariant
                i <= k,
                2 * k <= src@.len(),
                src@.len() <= usize::MAX,
                k <= dst@.len(),
                dst@.len() == old(dst)@.len(),
                forall|j: int| 0 <= j < i ==> dst@[j] == byte_min(src@[2 * j], src@[2 * j + 1]),
                forall|j: int| i <= j < dst@.len() ==> dst@[j] == old(dst)@[j],
            decreases k - i,
        {
            let a = src[2 * i];
            let b = src[2 * i + 1];
            dst.set(i, if a <= b { a } else { b });
            i = i + 1;
        }
        proof {
            let taken = src@.take(2 * k as int);
            assert(taken.len() % 2 == 0);
            lemma_pair_min_len(taken);
            assert forall|j: int| 0 <= j < k implies pair_min(taken)[j]
                == byte_min(src@[2 * j], src@[2 * j + 1]) by {
                lemma_pair_min_index(taken, j);
            }
            assert(dst@ =~= Self::emit(taken) + old(dst)@.skip(k as int));
        }
        (2 * k, k)
    }
}

} // verus!

//! Composable transform layers over a poll-style byte source.
//!
//! Two wrappers around a [`ByteSource`]: [`ObservedReader`] forwards bytes
//! unchanged while handing each delivered chunk to an [`Observer`] callback,
//! and [`MappedReader`] pulls bytes through a staging buffer and reshapes
//! them with a caller-supplied [`Transform`] before delivering them.

mod errors;
mod mapped;
mod observed;
mod observer;
mod source;
mod transform;
mod util;

pub use errors::{ReadError, SourceError};
pub use mapped::{
    lemma_contracting_output, lemma_drained_output, lemma_expanding_output,
    lemma_identity_round_trip, lemma_stream_split, MappedBuffer, MappedReader, DEFAULT_CAPACITY,
};
pub use observed::{lemma_observation_fidelity, ObservedReader};
pub use observer::{Observer, VecObserver};
pub use source::{ByteSource, FailingSource, VecSource};
pub use transform::{
    byte_min, duplicated, halved, lemma_duplicated_append, lemma_duplicated_index,
    lemma_duplicated_len, lemma_emit_empty, lemma_pair_min_append, lemma_pair_min_index,
    lemma_pair_min_len, pair_min, DuplicateTransform, HalveTransform, IdentityTransform,
    PairMinTransform, Transform,
};
pub use util::AsyncReadUtil;

use async_read_util::{
    AsyncReadUtil, DuplicateTransform, FailingSource, HalveTransform, IdentityTransform,
    MappedReader, ObservedReader, PairMinTransform, ReadError, SourceError, Transform,
    VecObserver, VecSource, DEFAULT_CAPACITY,
};

/// Drain a mapped reader completely, tolerating zero-byte calls made while
/// the transform waits for more staged input.
fn drain<R: async_read_util::ByteSource, T: Transform>(
    reader: &mut MappedReader<R, T>,
    dest_size: usize,
) -> Vec<u8> {
    let mut collected = vec![];
    let mut buf = vec![0u8; dest_size];
    let mut rounds = 0usize;
    while !reader.is_finished() {
        let n = reader.read(&mut buf).expect("able to read");
        collected.extend_from_slice(&buf[..n]);
        rounds += 1;
        assert!(rounds < 100_000, "reader stalled");
    }
    collected
}

#[test]
fn identity_round_trip_small_equal_large_destinations() {
    let data: Vec<u8> = (0..=255u8).cycle().take(1000).collect();
    for dest_size in [3usize, 16, 64, 4096] {
        let reader = VecSource::new(data.clone());
        let mut mapped = MappedReader::with_capacity(16, reader, IdentityTransform);
        let collected = drain(&mut mapped, dest_size);
        assert_eq!(collected, data);
    }
}

#[test]
fn identity_round_trip_default_capacity() {
    let data: Vec<u8> = (0..200u8).collect();
    let mut mapped = VecSource::new(data.clone()).map_read(IdentityTransform);
    let collected = drain(&mut mapped, 7);
    assert_eq!(collected, data);
}

#[test]
fn halve_exact_values() {
    let data = vec![4u8, 9, 255, 0, 1];
    let mut mapped = VecSource::new(data).map_read(HalveTransform);
    let collected = drain(&mut mapped, 2);
    assert_eq!(collected, vec![2u8, 4, 127, 0, 0]);
}

#[test]
fn expanding_across_small_destinations() {
    let data = vec![10u8, 20, 30, 40, 50];
    let mut mapped = MappedReader::with_capacity(4, VecSource::with_chunk(data, 2), DuplicateTransform);
    let collected = drain(&mut mapped, 3);
    assert_eq!(collected, vec![10u8, 10, 20, 20, 30, 30, 40, 40, 50, 50]);
    assert_eq!(collected.len(), 2 * 5);
}

#[test]
fn contracting_exact_values() {
    let data = vec![9u8, 3, 5, 5, 0, 200, 77, 76];
    let mut mapped = VecSource::new(data).map_read(PairMinTransform);
    let collected = drain(&mut mapped, 3);
    assert_eq!(collected, vec![3u8, 5, 0, 76]);
}

#[test]
fn contracting_odd_source_reports_zero_without_finishing() {
    // With an odd stream the pair transform leaves one byte staged forever:
    // the reader reports zero bytes but is not drained.
    let data = vec![5u8, 9, 7];
    let mut mapped = VecSource::new(data).map_read(PairMinTransform);
    let mut buf = vec![0u8; 4];
    let mut collected = vec![];
    loop {
        let n = mapped.read(&mut buf).expect("able to read");
        if n == 0 {
            break;
        }
        collected.extend_from_slice(&buf[..n]);
    }
    assert_eq!(collected, vec![5u8]);
    assert!(!mapped.is_finished());
}

#[test]
fn no_progress_compaction_drains_with_tight_capacity() {
    // The pair transform needs two staged bytes before it can emit anything;
    // the capacity barely exceeds that and the source trickles one byte per
    // call, so draining relies on the repack step.
    let data: Vec<u8> = (0..100u8).collect();
    let expected: Vec<u8> = data.chunks(2).map(|p| *p.iter().min().unwrap()).collect();
    let source = VecSource::with_chunk(data, 1);
    let mut mapped = MappedReader::with_capacity(3, source, PairMinTransform);
    let collected = drain(&mut mapped, 5);
    assert_eq!(collected, expected);
}

#[test]
fn read_to_end_identity_round_trip() {
    let data: Vec<u8> = (0..100u8).collect();
    let source = VecSource::with_chunk(data.clone(), 3);
    let mut mapped = MappedReader::with_capacity(8, source, IdentityTransform);
    let mut out = vec![];
    mapped.read_to_end(&mut out, 5).expect("able to read");
    assert_eq!(out, data);
    assert!(mapped.is_finished());
}

#[test]
fn read_to_end_duplicate_doubles_stream() {
    let data = vec![1u8, 2, 3, 4, 5, 6, 7];
    let expected: Vec<u8> = data.iter().flat_map(|x| vec![*x, *x]).collect();
    let mut mapped = VecSource::new(data).map_read(DuplicateTransform);
    let mut out = vec![];
    mapped.read_to_end(&mut out, 2).expect("able to read");
    assert_eq!(out, expected);
}

#[test]
fn read_to_end_propagates_source_error() {
    let mut mapped = FailingSource::new(9).map_read(IdentityTransform);
    let mut out = vec![];
    assert_eq!(
        mapped.read_to_end(&mut out, 4),
        Err(ReadError::Source(SourceError { code: 9 }))
    );
    assert!(out.is_empty());
}

#[test]
fn end_of_data_is_sticky() {
    let data = vec![1u8, 2, 3];
    let mut mapped = VecSource::new(data.clone()).map_read(IdentityTransform);
    let collected = drain(&mut mapped, 2);
    assert_eq!(collected, data);
    let mut buf = vec![0u8; 4];
    for _ in 0..3 {
        assert_eq!(mapped.read(&mut buf).expect("able to read"), 0);
        assert!(mapped.is_finished());
    }
}

#[test]
fn empty_source_returns_zero_immediately() {
    let mut mapped = VecSource::new(vec![]).map_read(IdentityTransform);
    let mut buf = vec![0u8; 8];
    assert_eq!(mapped.read(&mut buf).expect("able to read"), 0);
    assert!(mapped.is_finished());
}

/// A callback that misreports how many destination bytes it wrote. The
/// specification-level trait items are erased from compiled code and never
/// called at run time.
struct OverflowingTransform;

impl Transform for OverflowingTransform {
    fn emit(_: vstd::seq::Seq<u8>) -> vstd::seq::Seq<u8> {
        unreachable!()
    }
    fn complete(_: vstd::seq::Seq<u8>) -> bool {
        unreachable!()
    }
    fn min_consume(_: vstd::prelude::int, _: vstd::prelude::int) -> vstd::prelude::int {
        unreachable!()
    }
    fn complete_empty() {}
    fn complete_append(_: vstd::seq::Seq<u8>, _: vstd::seq::Seq<u8>) {}
    fn emit_append(_: vstd::seq::Seq<u8>, _: vstd::seq::Seq<u8>) {}
    fn transform(&mut self, _src: &[u8], dst: &mut Vec<u8>) -> (usize, usize) {
        (0, dst.len() + 1)
    }
}

#[test]
fn destination_overflow_is_rejected() {
    let mut mapped = VecSource::new(vec![1u8, 2, 3]).map_read(OverflowingTransform);
    let mut buf = vec![0u8; 2];
    assert_eq!(mapped.read(&mut buf), Err(ReadError::DestOverflow));
}

/// A callback that misreports how many source bytes it consumed.
struct OverconsumingTransform;

impl Transform for OverconsumingTransform {
    fn emit(_: vstd::seq::Seq<u8>) -> vstd::seq::Seq<u8> {
        unreachable!()
    }
    fn complete(_: vstd::seq::Seq<u8>) -> bool {
        unreachable!()
    }
    fn min_consume(_: vstd::prelude::int, _: vstd::prelude::int) -> vstd::prelude::int {
        unreachable!()
    }
    fn complete_empty() {}
    fn complete_append(_: vstd::seq::Seq<u8>, _: vstd::seq::Seq<u8>) {}
    fn emit_append(_: vstd::seq::Seq<u8>, _: vstd::seq::Seq<u8>) {}
    fn transform(&mut self, src: &[u8], _dst: &mut Vec<u8>) -> (usize, usize) {
        (src.len() + 1, 0)
    }
}

#[test]
fn source_overrun_is_rejected() {
    let mut mapped = VecSource::new(vec![1u8, 2, 3]).map_read(OverconsumingTransform);
    let mut buf = vec![0u8; 2];
    assert_eq!(mapped.read(&mut buf), Err(ReadError::SourceOverrun));
}

#[test]
fn mapped_reader_propagates_source_error() {
    let mut mapped = FailingSource::new(7).map_read(IdentityTransform);
    let mut buf = vec![0u8; 4];
    assert_eq!(
        mapped.read(&mut buf),
        Err(ReadError::Source(SourceError { code: 7 }))
    );
}

#[test]
fn observed_reader_propagates_error_without_observing() {
    let mut observed = ObservedReader::new(FailingSource::new(42), VecObserver::new());
    let mut buf = vec![0u8; 4];
    assert_eq!(observed.read(&mut buf), Err(SourceError { code: 42 }));
    assert!(observed.observer().seen().is_empty());
}

#[test]
fn observation_matches_delivery_with_chunked_source() {
    let data: Vec<u8> = (0..50u8).rev().collect();
    let source = VecSource::with_chunk(data.clone(), 3);
    let mut observed = source.observe(VecObserver::new());
    let mut collected = vec![];
    let mut buf = vec![0u8; 4];
    loop {
        let n = observed.read(&mut buf).expect("able to read");
        if n == 0 {
            break;
        }
        collected.extend_from_slice(&buf[..n]);
    }
    assert_eq!(collected, data);
    let (_source, observer) = observed.into_parts();
    assert_eq!(observer.seen(), &data);
}

#[test]
fn observer_log_accumulates_across_pipes() {
    let first = vec![1u8, 2, 3];
    let second = vec![4u8, 5];
    let mut observed = ObservedReader::new(VecSource::new(first.clone()), VecObserver::new());
    let mut buf = vec![0u8; 2];
    while observed.read(&mut buf).expect("able to read") > 0 {}
    let (_, observer) = observed.into_parts();
    let mut observed = ObservedReader::new(VecSource::new(second.clone()), observer);
    while observed.read(&mut buf).expect("able to read") > 0 {}
    let expected: Vec<u8> = first.into_iter().chain(second).collect();
    assert_eq!(observed.observer().seen(), &expected);
}

#[test]
fn default_capacity_matches_documented_value() {
    assert_eq!(DEFAULT_CAPACITY, 8096);
}

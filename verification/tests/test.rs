use async_read_util::{
    AsyncReadUtil, DuplicateTransform, HalveTransform, PairMinTransform, VecObserver, VecSource,
};
use rand::{thread_rng, Fill};

#[test]
fn test_observe() {
    let mut rng = thread_rng();
    let mut source = [0u8; 4096];
    source.try_fill(&mut rng).expect("fill with random numbers");
    let reader = VecSource::new(source.to_vec());
    let mut observed = reader.observe(VecObserver::new());
    let mut collected = vec![];
    let mut buf = vec![0u8; 1024];
    loop {
        let nread = observed.read(&mut buf).expect("able to read");
        if nread == 0 {
            break;
        }
        collected.extend_from_slice(&buf[..nread]);
    }
    assert_eq!(&collected, observed.observer().seen());
}

#[test]
fn test_map() {
    let mut rng = thread_rng();
    let mut source = [0u8; 4096];
    source.try_fill(&mut rng).expect("fill with random numbers");
    let reader = VecSource::new(source.to_vec());

    let mut mapped_reader = reader.map_read(HalveTransform);

    let mut collected = vec![];
    let mut buf = vec![0u8; 1024];
    loop {
        let nread = mapped_reader.read(&mut buf).expect("able to read");
        if nread == 0 {
            break;
        }
        collected.extend_from_slice(&buf[..nread]);
    }
    assert_eq!(collected, source.iter().map(|x| x / 2).collect::<Vec<u8>>());
}

#[test]
fn test_map_expanding() {
    let mut rng = thread_rng();
    let mut source = [0u8; 4096];
    source.try_fill(&mut rng).expect("fill with random numbers");
    let reader = VecSource::new(source.to_vec());

    let mut mapped_reader = reader.map_read(DuplicateTransform);

    let mut collected = vec![];
    let mut buf = vec![0u8; 1024];
    loop {
        let nread = mapped_reader.read(&mut buf).expect("able to read");
        if nread == 0 {
            break;
        }
        collected.extend_from_slice(&buf[..nread]);
    }
    assert_eq!(
        collected,
        source
            .iter()
            .flat_map(|x| vec![*x, *x])
            .collect::<Vec<u8>>()
    );
}

#[test]
fn test_map_contracting() {
    let mut rng = thread_rng();
    let mut source = [0u8; 4096];
    source.try_fill(&mut rng).expect("fill with random numbers");
    let reader = VecSource::new(source.to_vec());

    let mut mapped_reader = reader.map_read(PairMinTransform);

    let mut collected = vec![];
    let mut buf = vec![0u8; 1024];
    loop {
        let nread = mapped_reader.read(&mut buf).expect("able to read");
        if nread == 0 {
            break;
        }
        collected.extend_from_slice(&buf[..nread]);
    }
    assert_eq!(
        collected,
        source
            .chunks(2)
            .map(|xs| *xs.iter().min().unwrap())
            .collect::<Vec<u8>>()
    );
}

use async_read_util::{AsyncReadUtil, VecObserver, VecSource};
use rand::{thread_rng, Fill};

#[test]
fn test_read() {
    let mut rng = thread_rng();
    let mut source = [0u8; 4096];
    source.try_fill(&mut rng).expect("fill with random numbers");
    let reader = VecSource::new(source.to_vec());
    let mut observed = reader.observe(VecObserver::new());
    let mut collected = vec![];
    let mut buf = vec![0u8; 1024];
    loop {
        let nread = observed.read(&mut buf).expect("able to read");
        if nread == 0 {
            break;
        }
        collected.extend_from_slice(&buf[..nread]);
    }
    assert_eq!(&collected, observed.observer().seen());
}

use asymcrypt::{append_bytes, random_bytes, zeros, AsymcryptError, ByteSource, IoFailure};

#[test]
fn read_exact_consumes_exactly() {
    let mut src = ByteSource::new(vec![1, 2, 3, 4, 5]);
    assert_eq!(src.read_exact(2), Ok(vec![1, 2]));
    assert_eq!(src.remaining(), 3);
    assert_eq!(src.read_exact(4), Err(AsymcryptError::IOError(IoFailure::UnexpectedEof)));
    assert_eq!(src.remaining(), 3);
    assert_eq!(src.read_exact(3), Ok(vec![3, 4, 5]));
    assert_eq!(src.read_exact(0), Ok(vec![]));
}

#[test]
fn read_up_to_stops_at_end() {
    let mut src = ByteSource::new(vec![9, 8, 7]);
    assert_eq!(src.read_up_to(2), vec![9, 8]);
    assert_eq!(src.read_up_to(10), vec![7]);
    assert_eq!(src.read_up_to(10), Vec::<u8>::new());
}

#[test]
fn append_and_zeros() {
    let mut out = vec![1u8];
    append_bytes(&mut out, &[2, 3]);
    assert_eq!(out, vec![1, 2, 3]);
    assert_eq!(zeros(4), vec![0u8; 4]);
}

#[test]
fn random_bytes_fill_the_buffer() {
    let r = random_bytes(64).unwrap();
    assert_eq!(r.len(), 64);
    assert!(r.iter().any(|&b| b != 0));
}

use asymcrypt::{
    be_bytes_to_u16, expect_header, read_header, u16_be_bytes, u16_to_header_type, write_header,
    AsymcryptError, ByteSource, IoFailure, CIPHERTEXTHEADER, HEADER_LEN, KEYHEADER, PUBKEYHEADER,
    SIGNATUREHEADER,
};

fn header_of(t: u16) -> Vec<u8> {
    let mut w = Vec::new();
    write_header(&mut w, t);
    w
}

#[test]
fn header_layout_is_magic_version_type() {
    let h = header_of(CIPHERTEXTHEADER);
    assert_eq!(h.len(), HEADER_LEN);
    assert_eq!(&h[..9], b"asymcrypt");
    assert_eq!(&h[9..], &[0u8, 2, 0, 3]);
}

#[test]
fn header_round_trip_each_type() {
    for t in [KEYHEADER, PUBKEYHEADER, SIGNATUREHEADER, CIPHERTEXTHEADER] {
        let mut src = ByteSource::new(header_of(t));
        assert_eq!(read_header(&mut src), Ok(t));
        assert_eq!(src.remaining(), 0);
    }
}

#[test]
fn header_corrupt_magic_is_invalid_data() {
    let mut h = header_of(KEYHEADER);
    h[0] = b'b';
    let mut src = ByteSource::new(h);
    assert_eq!(read_header(&mut src), Err(AsymcryptError::InvalidDataError));
}

#[test]
fn header_wrong_version_is_unsupported() {
    let mut h = header_of(KEYHEADER);
    h[10] = 3;
    let mut src = ByteSource::new(h);
    assert_eq!(read_header(&mut src), Err(AsymcryptError::UnsupportedVersionError));
}

#[test]
fn header_out_of_range_type_is_invalid_data() {
    let h = header_of(4);
    let mut src = ByteSource::new(h);
    assert_eq!(read_header(&mut src), Err(AsymcryptError::InvalidDataError));
}

#[test]
fn expect_key_on_public_key_header_is_unexpected_type() {
    let mut src = ByteSource::new(header_of(PUBKEYHEADER));
    assert_eq!(expect_header(&mut src, KEYHEADER), Err(AsymcryptError::UnexpectedDataTypeError));
}

#[test]
fn header_truncated_is_eof() {
    let h = header_of(KEYHEADER);
    let mut src = ByteSource::new(h[..11].to_vec());
    assert_eq!(read_header(&mut src), Err(AsymcryptError::IOError(IoFailure::UnexpectedEof)));
}

#[test]
fn be16_helpers() {
    assert_eq!(u16_be_bytes(0x1234), (0x12, 0x34));
    assert_eq!(be_bytes_to_u16(0xab, 0xcd), 0xabcd);
    assert_eq!(u16_to_header_type(3), Some(3));
    assert_eq!(u16_to_header_type(4), None);
}

#[test]
fn error_messages_are_nonempty() {
    assert_eq!(
        AsymcryptError::CorruptOrTamperedDataError.message(),
        "Decrypting found corrupt or tampered with data."
    );
    assert!(!AsymcryptError::IOError(IoFailure::Other).message().is_empty());
}

#[test]
fn expect_header_mismatch_consumes_the_header() {
    let mut bytes = header_of(PUBKEYHEADER);
    bytes.extend_from_slice(&[1, 2, 3]);
    let mut src = ByteSource::new(bytes);
    assert_eq!(expect_header(&mut src, KEYHEADER), Err(AsymcryptError::UnexpectedDataTypeError));
    assert_eq!(src.remaining(), 3);
}

use asymcrypt::{
    AsymcryptError, ByteSource, CryptoBoxPk, CryptoBoxSk, CryptoSignPk, CryptoSignSk, IoFailure,
    Key, PublicKey, KEY_SERIALIZED_LEN, PUBLIC_KEY_SERIALIZED_LEN,
};

fn sample_key() -> Box<Key> {
    Key::new(
        CryptoBoxPk { bytes: (0..32).collect() },
        CryptoBoxSk { bytes: (32..64).collect() },
        CryptoSignPk { bytes: (64..96).collect() },
        CryptoSignSk { bytes: (96..160).collect() },
    )
}

#[test]
fn key_serialization_round_trip() {
    let k = sample_key();
    let mut w = Vec::new();
    k.write(&mut w);
    assert_eq!(w.len(), KEY_SERIALIZED_LEN);
    let mut src = ByteSource::new(w);
    let k2 = Key::read_boxed_from(&mut src).unwrap();
    assert_eq!(k2.box_pk.bytes, k.box_pk.bytes);
    assert_eq!(k2.box_sk.bytes, k.box_sk.bytes);
    assert_eq!(k2.sign_pk.bytes, k.sign_pk.bytes);
    assert_eq!(k2.sign_sk.bytes, k.sign_sk.bytes);
}

#[test]
fn key_body_field_order() {
    let k = sample_key();
    let mut w = Vec::new();
    k.write(&mut w);
    let body: Vec<u8> = (0..160).collect();
    assert_eq!(&w[13..], &body[..]);
}

#[test]
fn public_key_round_trip_and_view() {
    let k = sample_key();
    let p = k.pub_key();
    assert_eq!(p.box_pk.bytes, k.box_pk.bytes);
    assert_eq!(p.sign_pk.bytes, k.sign_pk.bytes);
    let mut w = Vec::new();
    p.write(&mut w);
    assert_eq!(w.len(), PUBLIC_KEY_SERIALIZED_LEN);
    let mut src = ByteSource::new(w);
    let p2 = PublicKey::read_from(&mut src).unwrap();
    assert_eq!(p2.box_pk.bytes, p.box_pk.bytes);
    assert_eq!(p2.sign_pk.bytes, p.sign_pk.bytes);
}

#[test]
fn key_read_on_public_key_is_unexpected_type() {
    let mut w = Vec::new();
    sample_key().pub_key().write(&mut w);
    let mut src = ByteSource::new(w);
    assert!(matches!(
        Key::read_boxed_from(&mut src),
        Err(AsymcryptError::UnexpectedDataTypeError)
    ));
}

#[test]
fn key_read_truncated_is_eof() {
    let mut w = Vec::new();
    sample_key().write(&mut w);
    w.truncate(100);
    let mut src = ByteSource::new(w);
    assert!(matches!(
        Key::read_boxed_from(&mut src),
        Err(AsymcryptError::IOError(IoFailure::UnexpectedEof))
    ));
}

#[test]
fn secret_keys_wipe_to_zero() {
    let mut k = sample_key();
    k.box_sk.wipe();
    k.sign_sk.wipe();
    assert!(k.box_sk.bytes.iter().all(|&b| b == 0));
    assert_eq!(k.sign_sk.bytes.len(), 64);
    assert!(k.sign_sk.bytes.iter().all(|&b| b == 0));
}

#[test]
fn wipe_secrets_keeps_public_fields() {
    let mut k = sample_key();
    k.wipe_secrets();
    assert!(k.box_sk.bytes.iter().all(|&b| b == 0));
    assert!(k.sign_sk.bytes.iter().all(|&b| b == 0));
    assert_eq!(k.box_pk.bytes, (0..32).collect::<Vec<u8>>());
    assert_eq!(k.sign_pk.bytes, (64..96).collect::<Vec<u8>>());
}

#[test]
fn key_read_header_error_reads_no_body_byte() {
    let mut w = Vec::new();
    sample_key().pub_key().write(&mut w);
    let mut src = ByteSource::new(w);
    assert!(Key::read_boxed_from(&mut src).is_err());
    assert_eq!(src.pos, 13);
}

use asymcrypt::{
    append_sealed_record, frame_chunk, next_plaintext_record, next_sealed_record,
    read_ciphertext_preamble, read_signature, record_plaintext, verify_outcome,
    write_ciphertext_preamble, write_signature, AsymcryptError, ByteSource, CryptoBoxNonce,
    CryptoBoxPk, CryptoSignPk, NonceSchedule, PublicKey, BUF_SZ, CIPHERTEXT_PREAMBLE_LEN, READ_SZ, RECORD_LEN,
};

// Stands in for the box primitive: keeps the 32-byte zero prefix convention
// (16 zero bytes in front of the output) and masks the rest with the nonce.
fn toy_seal(padded: &[u8], nonce: &[u8]) -> Vec<u8> {
    let mut c = vec![0u8; 16];
    for (i, b) in padded[16..].iter().enumerate() {
        c.push(b ^ nonce[i % nonce.len()]);
    }
    c
}

fn toy_open(sealed: &[u8], nonce: &[u8]) -> Vec<u8> {
    let mut p = vec![0u8; 16];
    for (i, b) in sealed[16..].iter().enumerate() {
        p.push(b ^ nonce[i % nonce.len()]);
    }
    p
}

fn encrypt(data: &[u8]) -> Vec<u8> {
    let pk = CryptoBoxPk { bytes: vec![9u8; 32] };
    let mut nonce = CryptoBoxNonce { bytes: (1..25).collect() };
    let mut out = Vec::new();
    write_ciphertext_preamble(&mut out, &pk, &nonce);
    let mut src = ByteSource::new(data.to_vec());
    while let Some(padded) = next_plaintext_record(&mut src) {
        let sealed = toy_seal(&padded, &nonce.bytes);
        append_sealed_record(&mut out, &sealed);
        nonce.inc();
    }
    out
}

fn decrypt(ct: Vec<u8>) -> Result<Vec<u8>, AsymcryptError> {
    let mut src = ByteSource::new(ct);
    let (_pk, mut nonce) = read_ciphertext_preamble(&mut src)?;
    let mut out = Vec::new();
    while let Some(sealed) = next_sealed_record(&mut src)? {
        let plain = toy_open(&sealed, &nonce.bytes);
        out.extend(record_plaintext(true, &plain)?);
        nonce.inc();
    }
    Ok(out)
}

fn data(n: usize) -> Vec<u8> {
    (0..n).map(|i| (i * 7 + 3) as u8).collect()
}

#[test]
fn round_trip_lengths() {
    for n in [0, 1, READ_SZ, 3 * READ_SZ + 5] {
        let d = data(n);
        let ct = encrypt(&d);
        let records = (n + READ_SZ - 1) / READ_SZ;
        assert_eq!(ct.len(), CIPHERTEXT_PREAMBLE_LEN + records * RECORD_LEN);
        assert_eq!(decrypt(ct).unwrap(), d);
    }
}

#[test]
fn frame_chunk_layout() {
    let f = frame_chunk(&[1, 2, 3]);
    assert_eq!(f.len(), BUF_SZ);
    assert!(f[..32].iter().all(|&b| b == 0));
    assert_eq!(&f[32..37], &[0, 3, 1, 2, 3]);
    assert!(f[37..].iter().all(|&b| b == 0));
}

#[test]
fn failed_open_is_corrupt_or_tampered() {
    let plain = frame_chunk(&[5u8; 10]);
    assert_eq!(record_plaintext(false, &plain), Err(AsymcryptError::CorruptOrTamperedDataError));
    assert_eq!(record_plaintext(true, &plain), Ok(vec![5u8; 10]));
}

#[test]
fn bad_length_prefix_is_invalid_data() {
    let mut plain = frame_chunk(&[5u8; 10]);
    plain[32] = 0xff;
    assert_eq!(record_plaintext(true, &plain), Err(AsymcryptError::InvalidDataError));
}

#[test]
fn truncated_record_is_invalid_data() {
    let mut ct = encrypt(&data(100));
    ct.pop();
    assert_eq!(decrypt(ct), Err(AsymcryptError::InvalidDataError));
}

#[test]
fn wrong_artifact_type_is_rejected_before_records() {
    let mut w = Vec::new();
    write_signature(&mut w, &CryptoSignPk { bytes: vec![1u8; 32] }, &[0u8; 64]);
    assert_eq!(decrypt(w), Err(AsymcryptError::UnexpectedDataTypeError));
}

#[test]
fn signature_envelope_round_trip() {
    let signer = CryptoSignPk { bytes: vec![4u8; 32] };
    let signed: Vec<u8> = (0..80).collect();
    let mut w = Vec::new();
    write_signature(&mut w, &signer, &signed);
    assert_eq!(w.len(), 13 + 32 + 80);
    let mut src = ByteSource::new(w);
    let (pk, s2) = read_signature(&mut src).unwrap();
    assert_eq!(pk.bytes, signer.bytes);
    assert_eq!(s2, signed);
}

#[test]
fn verify_outcomes() {
    let counterparty = PublicKey {
        box_pk: CryptoBoxPk { bytes: vec![0u8; 32] },
        sign_pk: CryptoSignPk { bytes: vec![4u8; 32] },
    };
    let signer = CryptoSignPk { bytes: vec![4u8; 32] };
    let other = CryptoSignPk { bytes: vec![5u8; 32] };
    let msg = b"hello".to_vec();
    assert_eq!(verify_outcome(&signer, &counterparty, Some(msg.clone()), &msg), Ok(5));
    assert_eq!(
        verify_outcome(&signer, &counterparty, None, &msg),
        Err(AsymcryptError::SignatureFailedError)
    );
    assert_eq!(
        verify_outcome(&signer, &counterparty, Some(b"hellp".to_vec()), &msg),
        Err(AsymcryptError::SignatureFailedError)
    );
    assert_eq!(
        verify_outcome(&other, &counterparty, Some(msg.clone()), &msg),
        Err(AsymcryptError::SignatureKeyMismatchError)
    );
}

#[test]
fn schedule_gives_record_i_the_ith_increment() {
    let first = CryptoBoxNonce { bytes: vec![0xfeu8; 24] };
    let mut expected = CryptoBoxNonce { bytes: first.bytes.clone() };
    let mut schedule = NonceSchedule::new(first);
    let mut src = ByteSource::new(data(2 * READ_SZ + 1));
    let mut seen = Vec::new();
    while let Some((rec, n)) = schedule.next_to_seal(&mut src) {
        assert_eq!(rec.len(), BUF_SZ);
        assert_eq!(n.bytes, expected.bytes);
        seen.push(n.bytes.clone());
        expected.inc();
    }
    assert_eq!(seen.len(), 3);
    assert_eq!(seen[1][0], 0xff);
    assert_eq!(&seen[2][..2], &[0x00, 0xff]);
    assert_eq!(schedule.nonce.bytes, expected.bytes);
}

#[test]
fn schedule_opens_with_the_sealing_nonces() {
    let first = CryptoBoxNonce { bytes: (1..25).collect() };
    let ct = encrypt(&data(READ_SZ + 3));
    let mut src = ByteSource::new(ct);
    let (_pk, nonce) = read_ciphertext_preamble(&mut src).unwrap();
    assert_eq!(nonce.bytes, first.bytes);
    let mut schedule = NonceSchedule::new(nonce);
    let mut expected = first;
    let mut count = 0;
    while let Some((sealed, n)) = schedule.next_to_open(&mut src).unwrap() {
        assert_eq!(sealed.len(), BUF_SZ);
        assert_eq!(n.bytes, expected.bytes);
        expected.inc();
        count += 1;
    }
    assert_eq!(count, 2);
}

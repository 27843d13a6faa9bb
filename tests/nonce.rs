use asymcrypt::{CryptoBoxNonce, CRYPTO_BOX_NONCEBYTES};

#[test]
fn test_nonce_inc() {
    let mut n = CryptoBoxNonce::new().unwrap();
    n.bytes[0] = 0xff;
    n.bytes[1] = 0xff;
    n.bytes[2] = 0xfe;
    n.bytes[3] = 3;
    n.inc();
    assert!(n.bytes[0] == 0);
    assert!(n.bytes[1] == 0);
    assert!(n.bytes[2] == 0xff);
    assert!(n.bytes[3] == 3);
}

#[test]
fn nonce_has_provider_width_and_random_content() {
    let a = CryptoBoxNonce::new().unwrap();
    let b = CryptoBoxNonce::new().unwrap();
    assert_eq!(a.bytes.len(), CRYPTO_BOX_NONCEBYTES);
    assert_eq!(b.bytes.len(), CRYPTO_BOX_NONCEBYTES);
    assert!(a.bytes.iter().any(|&x| x != 0));
    assert_ne!(a.bytes, b.bytes);
}

#[test]
fn nonce_inc_without_carry_touches_only_first_byte() {
    let mut n = CryptoBoxNonce { bytes: vec![7u8; CRYPTO_BOX_NONCEBYTES] };
    n.inc();
    assert_eq!(n.bytes[0], 8);
    assert!(n.bytes[1..].iter().all(|&x| x == 7));
}

#[test]
fn nonce_inc_all_ff_rolls_over_to_zero() {
    let mut n = CryptoBoxNonce { bytes: vec![0xffu8; CRYPTO_BOX_NONCEBYTES] };
    n.inc();
    assert!(n.bytes.iter().all(|&x| x == 0));
}

#[test]
fn nonce_successive_increments_differ() {
    let mut n = CryptoBoxNonce { bytes: vec![0u8; CRYPTO_BOX_NONCEBYTES] };
    let mut seen = Vec::new();
    for _ in 0..600 {
        seen.push(n.bytes.clone());
        n.inc();
    }
    assert_eq!(n.bytes[0], (600 % 256) as u8);
    assert_eq!(n.bytes[1], (600 / 256) as u8);
    seen.sort();
    seen.dedup();
    assert_eq!(seen.len(), 600);
}

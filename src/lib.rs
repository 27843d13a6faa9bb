//! Framing, key handling and chunked-stream protocol for public-key
//! encryption and signing over an authenticated-box primitive provider.

mod bytes;
mod error;
mod header;
mod keys;
mod nonce;
mod pipeline;
mod random;
mod signature;

pub use bytes::{append_bytes, ByteSource};
pub use error::{eof_error, AsymcryptError, IoFailure};
pub use header::{
    be16, be_bytes_to_u16, be_value, bytes_equal, check_header, expect_header, header_bytes,
    lemma_header_prefix, magic_bytes, magic_spec, parse_header, read_header, u16_be_bytes,
    u16_to_header_type, write_header, AsymcryptHeaderType, CIPHERTEXTHEADER, HEADEREND,
    HEADER_LEN, KEYHEADER, MAGIC_LEN, PROTOCOL_VERSION, PUBKEYHEADER, SIGNATUREHEADER,
};
pub use keys::{
    copy_bytes, key_bytes, lemma_key_round_trip, lemma_public_key_round_trip, parse_key,
    parse_public_key, public_key_bytes, wipe_bytes, CryptoBoxPk, CryptoBoxSk, CryptoSignPk,
    CryptoSignSk, Key, KeyFields, PublicKey, PublicKeyFields, CRYPTO_BOX_PUBLICKEYBYTES,
    CRYPTO_BOX_SECRETKEYBYTES, CRYPTO_SIGN_PUBLICKEYBYTES, CRYPTO_SIGN_SECRETKEYBYTES,
    KEY_SERIALIZED_LEN, PUBLIC_KEY_SERIALIZED_LEN,
};
pub use nonce::{
    carries_into, counter_space, inc_n, inc_spec, le_value, lemma_inc_n_value, lemma_inc_value,
    lemma_le_value_bound, lemma_nonces_distinct, CryptoBoxNonce, CRYPTO_BOX_NONCEBYTES,
};
pub use pipeline::{
    append_sealed_record, chunk_len, ciphertext_preamble, frame_chunk, frame_spec,
    lemma_chunks_cover, lemma_ciphertext_preamble_round_trip, lemma_frame_round_trip,
    lemma_record_round_trip, next_plaintext_record, next_sealed_record,
    parse_ciphertext_preamble, parse_record, plaintext_chunks, read_ciphertext_preamble,
    record_plaintext, unframe_spec, write_ciphertext_preamble, zero_seq, BUF_SZ,
    NonceSchedule, CIPHERTEXT_PREAMBLE_LEN, CRYPTO_BOX_BOXZEROBYTES, CRYPTO_BOX_ZEROBYTES,
    READ_SZ, RECORD_LEN,
};
pub use random::{random_bytes, zeros};
pub use signature::{
    lemma_signature_round_trip, lemma_verify_accepts_only_the_message, parse_signature,
    read_signature, signature_bytes, verify_outcome, verify_spec, write_signature,
    CRYPTO_SIGN_BYTES, SIGNATURE_PREAMBLE_LEN,
};

use vstd::prelude::*;
use crate::bytes::{append_bytes, ByteSource};
use crate::error::{eof_error, AsymcryptError};
use crate::header::{
    bytes_equal, check_header, expect_header, header_bytes, lemma_header_prefix, write_header,
    HEADER_LEN, SIGNATUREHEADER,
};
use crate::keys::{CryptoSignPk, PublicKey, CRYPTO_SIGN_PUBLICKEYBYTES};

verus! {

/// Bytes that a signature adds to the signed message.
pub const CRYPTO_SIGN_BYTES: usize = 64;
/// Header and signer's public key in front of the signed bytes.
pub const SIGNATURE_PREAMBLE_LEN: usize = 45;

/// The serialized signature envelope: header, the signer's public signing
/// key, the signed bytes.
pub open spec fn signature_bytes(signer: Seq<u8>, signed: Seq<u8>) -> Seq<u8> {
    header_bytes(SIGNATUREHEADER) + signer + signed
}

/// What reading a signature envelope from the bytes `s` yields: the
/// signer's public key and the signed bytes, which run to the end of `s`.
pub open spec fn parse_signature(s: Seq<u8>) -> Result<(Seq<u8>, Seq<u8>), AsymcryptError> {
    match check_header(s, SIGNATUREHEADER) {
        Err(e) => Err(e),
        Ok(_) => if s.len() < SIGNATURE_PREAMBLE_LEN + CRYPTO_SIGN_BYTES {
            Err(eof_error())
        } else {
            Ok((s.subrange(13, 45), s.skip(45)))
        },
    }
}

/// The outcome of verifying `message` against an envelope signed by
/// `envelope_signer`, for a counterparty whose signing key is `expected`,
/// given what the signature primitive opened (`None`: it failed).
pub open spec fn verify_spec(
    envelope_signer: Seq<u8>,
    expected: Seq<u8>,
    opened: Option<Seq<u8>>,
    message: Seq<u8>,
) -> Result<usize, AsymcryptError> {
    if envelope_signer != expected {
        Err(AsymcryptError::SignatureKeyMismatchError)
    } else {
        match opened {
            Some(m) => if m == message {
                Ok(m.len() as usize)
            } else {
                Err(AsymcryptError::SignatureFailedError)
            },
            None => Err(AsymcryptError::SignatureFailedError),
        }
    }
}

/// Writes a signature envelope for the signed bytes `signed` made with the
/// secret key that belongs to `signer`.
pub fn write_signature(out: &mut Vec<u8>, signer: &CryptoSignPk, signed: &[u8])
    ensures
        final(out)@ == old(out)@ + signature_bytes(signer.bytes@, signed@),
{
    write_header(out, SIGNATUREHEADER);
    append_bytes(out, signer.bytes.as_slice());
    append_bytes(out, signed);
    assert(out@ =~= old(out)@ + signature_bytes(signer.bytes@, signed@));
}

/// Reads a signature envelope from `src`, to its end.
pub fn read_signature(src: &mut ByteSource) -> (res: Result<(CryptoSignPk, Vec<u8>), AsymcryptError>)
    requires
        old(src).wf(),
    ensures
        final(src).wf(),
        final(src).data@ == old(src).data@,
        check_header(old(src).rest(), SIGNATUREHEADER) is Err ==> final(src).pos <= old(src).pos
            + HEADER_LEN,
        match res {
            Ok((pk, signed)) => pk.wf() && parse_signature(old(src).rest()) == Ok::<
                (Seq<u8>, Seq<u8>),
                AsymcryptError,
            >((pk.bytes@, signed@)) && final(src).rest().len() == 0,
            Err(e) => parse_signature(old(src).rest()) == Err::<(Seq<u8>, Seq<u8>), AsymcryptError>(
                e,
            ),
        },
{
    let ghost s = src.rest();
    expect_header(src, SIGNATUREHEADER)?;
    let ghost s0 = src.rest();
    if src.remaining() < CRYPTO_SIGN_PUBLICKEYBYTES + CRYPTO_SIGN_BYTES {
        return Err(AsymcryptError::IOError(crate::error::IoFailure::UnexpectedEof));
    }
    let pk = src.read_exact(CRYPTO_SIGN_PUBLICKEYBYTES)?;
    let n = src.remaining();
    let signed = src.read_up_to(n);
    proof {
        assert(s0 =~= s.skip(13));
        assert(pk@ =~= s.subrange(13, 45));
        assert(signed@ =~= s.skip(45));
    }
    Ok((CryptoSignPk { bytes: pk }, signed))
}

/// Decides verification from the envelope's signer, the counterparty's public
/// key and what the signature primitive opened the signed bytes to: the
/// recovered message length on success.
pub fn verify_outcome(
    envelope_signer: &CryptoSignPk,
    counterparty: &PublicKey,
    opened: Option<Vec<u8>>,
    message: &[u8],
) -> (res: Result<usize, AsymcryptError>)
    ensures
        res == verify_spec(
            envelope_signer.bytes@,
            counterparty.sign_pk.bytes@,
            match opened {
                Some(m) => Some(m@),
                None => None,
            },
            message@,
        ),
{
    if !bytes_equal(envelope_signer.bytes.as_slice(), counterparty.sign_pk.bytes.as_slice()) {
        return Err(AsymcryptError::SignatureKeyMismatchError);
    }
    match opened {
        Some(m) => if bytes_equal(m.as_slice(), message) {
            Ok(m.len())
        } else {
            Err(AsymcryptError::SignatureFailedError)
        },
        None => Err(AsymcryptError::SignatureFailedError),
    }
}

/// An envelope written by `write_signature` reads back as the same signer
/// and signed bytes.
pub proof fn lemma_signature_round_trip(signer: Seq<u8>, signed: Seq<u8>)
    requires
        signer.len() == CRYPTO_SIGN_PUBLICKEYBYTES,
        signed.len() >= CRYPTO_SIGN_BYTES,
    ensures
        parse_signature(signature_bytes(signer, signed)) == Ok::<
            (Seq<u8>, Seq<u8>),
            AsymcryptError,
        >((signer, signed)),
{
    let s = signature_bytes(signer, signed);
    lemma_header_prefix(SIGNATUREHEADER, signer + signed);
    assert(s =~= header_bytes(SIGNATUREHEADER) + (signer + signed));
    assert(s.subrange(13, 45) =~= signer);
    assert(s.skip(45) =~= signed);
}

/// Verification succeeds, recovering the message's length, exactly when the
/// envelope's signer is the counterparty's key and the primitive opened the
/// signed bytes to the message itself; a changed message fails.
pub proof fn lemma_verify_accepts_only_the_message(
    signer: Seq<u8>,
    expected: Seq<u8>,
    opened: Option<Seq<u8>>,
    message: Seq<u8>,
)
    requires
        message.len() <= usize::MAX,
    ensures
        verify_spec(signer, expected, opened, message) is Ok <==> (signer == expected && opened
            == Some(message)),
        verify_spec(signer, expected, opened, message) is Ok ==> verify_spec(
            signer,
            expected,
            opened,
            message,
        ) == Ok::<usize, AsymcryptError>(message.len() as usize),
{
}

} // verus!

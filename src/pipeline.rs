use vstd::prelude::*;
use crate::bytes::{append_bytes, ByteSource};
use crate::error::{eof_error, AsymcryptError};
use crate::header::{
    be16, be_bytes_to_u16, be_value, check_header, expect_header, header_bytes,
    lemma_header_prefix, u16_be_bytes, write_header, CIPHERTEXTHEADER, HEADER_LEN,
};
use crate::keys::{copy_bytes, CryptoBoxPk, CRYPTO_BOX_PUBLICKEYBYTES};
use crate::nonce::{
    counter_space, inc_n, lemma_nonces_distinct, CryptoBoxNonce, CRYPTO_BOX_NONCEBYTES,
};
use crate::random::zeros;

verus! {

/// The most plaintext bytes that one record carries.
pub const READ_SZ: usize = 16384;
/// Zero bytes that the box primitive expects in front of a plaintext.
pub const CRYPTO_BOX_ZEROBYTES: usize = 32;
/// Zero bytes that the box primitive puts in front of a ciphertext.
pub const CRYPTO_BOX_BOXZEROBYTES: usize = 16;
/// Length of a padded plaintext record, and of the box sealed from it.
pub const BUF_SZ: usize = 16418;
/// Length of a record on the wire: the sealed box without its leading zeros.
pub const RECORD_LEN: usize = 16402;
/// Header, ephemeral public key and nonce in front of the records.
pub const CIPHERTEXT_PREAMBLE_LEN: usize = 69;

/// `n` zero bytes.
pub open spec fn zero_seq(n: nat) -> Seq<u8> {
    Seq::new(n, |i: int| 0u8)
}

/// The record handed to the box primitive for the plaintext chunk `c`:
/// the primitive's zero prefix, the chunk's length, the chunk, zero padding.
pub open spec fn frame_spec(c: Seq<u8>) -> Seq<u8> {
    zero_seq(CRYPTO_BOX_ZEROBYTES as nat) + be16(c.len() as u16) + c + zero_seq(
        (READ_SZ - c.len()) as nat,
    )
}

/// The plaintext chunk that an opened record `p` carries.
pub open spec fn unframe_spec(p: Seq<u8>) -> Result<Seq<u8>, AsymcryptError> {
    let n = be_value(p[32], p[33]);
    if n == 0 || n > READ_SZ {
        Err(AsymcryptError::InvalidDataError)
    } else {
        Ok(p.subrange(34, 34 + n))
    }
}

/// How many bytes the next chunk of the plaintext `s` holds.
pub open spec fn chunk_len(s: Seq<u8>) -> nat {
    if s.len() < READ_SZ {
        s.len()
    } else {
        READ_SZ as nat
    }
}

/// The chunks, in order, into which the plaintext `s` is cut.
pub open spec fn plaintext_chunks(s: Seq<u8>) -> Seq<Seq<u8>>
    decreases s.len(),
{
    if s.len() == 0 {
        Seq::empty()
    } else {
        seq![s.take(chunk_len(s) as int)] + plaintext_chunks(s.skip(chunk_len(s) as int))
    }
}

/// The bytes in front of the records of a ciphertext.
pub open spec fn ciphertext_preamble(pk: Seq<u8>, nonce: Seq<u8>) -> Seq<u8> {
    header_bytes(CIPHERTEXTHEADER) + pk + nonce
}

/// What reading a ciphertext's preamble from the bytes `s` yields: the
/// sender's ephemeral public key and the first nonce.
pub open spec fn parse_ciphertext_preamble(s: Seq<u8>) -> Result<(Seq<u8>, Seq<u8>), AsymcryptError> {
    match check_header(s, CIPHERTEXTHEADER) {
        Err(e) => Err(e),
        Ok(_) => if s.len() < CIPHERTEXT_PREAMBLE_LEN {
            Err(eof_error())
        } else {
            Ok((s.subrange(13, 45), s.subrange(45, 69)))
        },
    }
}

/// What reading the next record from the bytes `s` yields: `None` at a
/// clean end, the sealed box (its zero prefix restored) otherwise.
pub open spec fn parse_record(s: Seq<u8>) -> Result<Option<Seq<u8>>, AsymcryptError> {
    if s.len() == 0 {
        Ok(None)
    } else if s.len() < RECORD_LEN {
        Err(AsymcryptError::InvalidDataError)
    } else {
        Ok(Some(zero_seq(CRYPTO_BOX_BOXZEROBYTES as nat) + s.take(RECORD_LEN as int)))
    }
}

/// Writes the ciphertext header, the ephemeral public key and the first nonce.
pub fn write_ciphertext_preamble(out: &mut Vec<u8>, ephemeral_pk: &CryptoBoxPk, nonce: &CryptoBoxNonce)
    ensures
        final(out)@ == old(out)@ + ciphertext_preamble(ephemeral_pk.bytes@, nonce.bytes@),
{
    write_header(out, CIPHERTEXTHEADER);
    append_bytes(out, ephemeral_pk.bytes.as_slice());
    append_bytes(out, nonce.bytes.as_slice());
    assert(out@ =~= old(out)@ + ciphertext_preamble(ephemeral_pk.bytes@, nonce.bytes@));
}

/// The padded record for one plaintext chunk of 1 to `READ_SZ` bytes.
pub fn frame_chunk(chunk: &[u8]) -> (r: Vec<u8>)
    requires
        0 < chunk@.len() <= READ_SZ,
    ensures
        r@ == frame_spec(chunk@),
        r@.len() == BUF_SZ,
{
    let mut r = zeros(CRYPTO_BOX_ZEROBYTES);
    let (sz_hi, sz_lo) = u16_be_bytes(chunk.len() as u16);
    r.push(sz_hi);
    r.push(sz_lo);
    append_bytes(&mut r, chunk);
    let pad = zeros(READ_SZ - chunk.len());
    append_bytes(&mut r, pad.as_slice());
    assert(r@ =~= frame_spec(chunk@));
    r
}

/// Reads the next plaintext chunk from `src` and frames it for sealing;
/// `None` once the source is exhausted.
pub fn next_plaintext_record(src: &mut ByteSource) -> (r: Option<Vec<u8>>)
    requires
        old(src).wf(),
    ensures
        final(src).wf(),
        final(src).data@ == old(src).data@,
        old(src).rest().len() == 0 ==> r is None && final(src).rest() == old(src).rest(),
        old(src).rest().len() > 0 ==> (r matches Some(v) && v@ == frame_spec(
            plaintext_chunks(old(src).rest())[0],
        ) && final(src).rest() == old(src).rest().skip(chunk_len(old(src).rest()) as int)),
{
    let chunk = src.read_up_to(READ_SZ);
    if chunk.len() == 0 {
        None
    } else {
        Some(frame_chunk(chunk.as_slice()))
    }
}

/// Appends a sealed record to `out` without the box's leading zero bytes.
pub fn append_sealed_record(out: &mut Vec<u8>, sealed: &[u8])
    requires
        sealed@.len() == BUF_SZ,
    ensures
        final(out)@ == old(out)@ + sealed@.skip(CRYPTO_BOX_BOXZEROBYTES as int),
{
    let mut i: usize = CRYPTO_BOX_BOXZEROBYTES;
    while i < sealed.len()
        invariant
            CRYPTO_BOX_BOXZEROBYTES <= i <= sealed@.len(),
            out@ == old(out)@ + sealed@.subrange(CRYPTO_BOX_BOXZEROBYTES as int, i as int),
        decreases sealed@.len() - i,
    {
        out.push(sealed[i]);
        i = i + 1;
        assert(sealed@.subrange(CRYPTO_BOX_BOXZEROBYTES as int, i as int) =~= sealed@.subrange(
            CRYPTO_BOX_BOXZEROBYTES as int,
            i - 1,
        ) + seq![sealed@[i - 1]]);
    }
    assert(sealed@.subrange(CRYPTO_BOX_BOXZEROBYTES as int, i as int) =~= sealed@.skip(
        CRYPTO_BOX_BOXZEROBYTES as int,
    ));
}

/// Reads a ciphertext's header, the sender's ephemeral public key and the
/// first nonce from `src`.
pub fn read_ciphertext_preamble(src: &mut ByteSource) -> (res: Result<
    (CryptoBoxPk, CryptoBoxNonce),
    AsymcryptError,
>)
    requires
        old(src).wf(),
    ensures
        final(src).wf(),
        final(src).data@ == old(src).data@,
        check_header(old(src).rest(), CIPHERTEXTHEADER) is Err ==> final(src).pos <= old(src).pos
            + HEADER_LEN,
        match res {
            Ok((pk, n)) => pk.wf() && n.wf() && parse_ciphertext_preamble(old(src).rest()) == Ok::<
                (Seq<u8>, Seq<u8>),
                AsymcryptError,
            >((pk.bytes@, n.bytes@)) && final(src).rest() == old(src).rest().skip(
                CIPHERTEXT_PREAMBLE_LEN as int,
            ),
            Err(e) => parse_ciphertext_preamble(old(src).rest()) == Err::<
                (Seq<u8>, Seq<u8>),
                AsymcryptError,
            >(e),
        },
{
    let ghost s = src.rest();
    expect_header(src, CIPHERTEXTHEADER)?;
    let ghost s0 = src.rest();
    let pk = src.read_exact(CRYPTO_BOX_PUBLICKEYBYTES)?;
    let nonce = src.read_exact(CRYPTO_BOX_NONCEBYTES)?;
    proof {
        assert(s0 =~= s.skip(13));
        assert(pk@ =~= s.subrange(13, 45));
        assert(nonce@ =~= s.subrange(45, 69));
        assert(src.rest() =~= s.skip(69));
    }
    Ok((CryptoBoxPk { bytes: pk }, CryptoBoxNonce { bytes: nonce }))
}

/// Reads the next record from `src` and restores the box's zero prefix, ready
/// to be opened; `None` when the source ends exactly at a record boundary.
pub fn next_sealed_record(src: &mut ByteSource) -> (res: Result<Option<Vec<u8>>, AsymcryptError>)
    requires
        old(src).wf(),
    ensures
        final(src).wf(),
        final(src).data@ == old(src).data@,
        match (res, parse_record(old(src).rest())) {
            (Ok(None), Ok(None)) => true,
            (Ok(Some(v)), Ok(Some(w))) => v@ == w && final(src).rest() == old(src).rest().skip(
                RECORD_LEN as int,
            ),
            (Err(e), Err(f)) => e == f,
            _ => false,
        },
{
    let ghost s = src.rest();
    let record = src.read_up_to(RECORD_LEN);
    if record.len() == 0 {
        Ok(None)
    } else if record.len() < RECORD_LEN {
        Err(AsymcryptError::InvalidDataError)
    } else {
        let mut sealed = zeros(CRYPTO_BOX_BOXZEROBYTES);
        append_bytes(&mut sealed, record.as_slice());
        assert(sealed@ =~= zero_seq(CRYPTO_BOX_BOXZEROBYTES as nat) + s.take(RECORD_LEN as int));
        Ok(Some(sealed))
    }
}

/// The plaintext of one record, given whether the box primitive could open it
/// and what it opened to. A record that failed to open yields
/// `CorruptOrTamperedDataError` and no plaintext.
pub fn record_plaintext(opened: bool, plain: &[u8]) -> (res: Result<Vec<u8>, AsymcryptError>)
    requires
        opened ==> plain@.len() == BUF_SZ,
    ensures
        !opened ==> res == Err::<Vec<u8>, AsymcryptError>(
            AsymcryptError::CorruptOrTamperedDataError,
        ),
        opened ==> match (res, unframe_spec(plain@)) {
            (Ok(v), Ok(w)) => v@ == w,
            (Err(e), Err(f)) => e == f,
            _ => false,
        },
{
    if !opened {
        return Err(AsymcryptError::CorruptOrTamperedDataError);
    }
    let n = be_bytes_to_u16(plain[32], plain[33]);
    if n == 0 || n as usize > READ_SZ {
        return Err(AsymcryptError::InvalidDataError);
    }
    let end: usize = 34 + n as usize;
    let mut v: Vec<u8> = Vec::new();
    let mut i: usize = 34;
    while i < end
        invariant
            34 <= i <= end,
            end <= plain@.len(),
            v@ == plain@.subrange(34, i as int),
        decreases end - i,
    {
        v.push(plain[i]);
        i = i + 1;
        assert(plain@.subrange(34, i as int) =~= plain@.subrange(34, i - 1) + seq![plain@[i - 1]]);
    }
    Ok(v)
}

/// The nonces of one message: the nonce of the next record, the message's
/// first nonce, and how many records have been handed out so far. Record `i`
/// of a message is sealed and opened under `i` increments of the first nonce.
pub struct NonceSchedule {
    pub nonce: CryptoBoxNonce,
    pub first: Ghost<Seq<u8>>,
    pub count: Ghost<nat>,
}

impl NonceSchedule {
    pub open spec fn wf(&self) -> bool {
        self.nonce.bytes@ == inc_n(self.first@, self.count@)
    }

    /// The schedule of a message whose first record uses `nonce`.
    pub fn new(nonce: CryptoBoxNonce) -> (r: NonceSchedule)
        ensures
            r.wf(),
            r.first@ == nonce.bytes@,
            r.count@ == 0,
    {
        let ghost first = nonce.bytes@;
        NonceSchedule { nonce, first: Ghost(first), count: Ghost(0) }
    }

    /// Hands out the current nonce and moves on to the next one. While fewer
    /// records than the counter space holds have been handed out, the nonce
    /// differs from that of every earlier record.
    fn take(&mut self) -> (n: CryptoBoxNonce)
        requires
            old(self).wf(),
        ensures
            final(self).wf(),
            final(self).first == old(self).first,
            final(self).count@ == old(self).count@ + 1,
            n.bytes@ == inc_n(old(self).first@, old(self).count@),
            old(self).count@ < counter_space(old(self).first@.len()) ==> forall|k: nat|
                k < old(self).count@ ==> #[trigger] inc_n(old(self).first@, k) != n.bytes@,
    {
        let n = CryptoBoxNonce { bytes: copy_bytes(&self.nonce.bytes) };
        self.nonce.inc();
        self.count = Ghost(self.count@ + 1);
        proof {
            if old(self).count@ < counter_space(old(self).first@.len()) {
                assert forall|k: nat| k < old(self).count@ implies #[trigger] inc_n(
                    old(self).first@,
                    k,
                ) != n.bytes@ by {
                    lemma_nonces_distinct(old(self).first@, k, old(self).count@);
                }
            }
        }
        n
    }

    /// Reads the next plaintext chunk from `src` and returns its record, framed
    /// for sealing, with the nonce to seal it under; `None` once the source is
    /// exhausted, with no nonce used.
    pub fn next_to_seal(&mut self, src: &mut ByteSource) -> (r: Option<(Vec<u8>, CryptoBoxNonce)>)
        requires
            old(self).wf(),
            old(src).wf(),
        ensures
            final(self).wf(),
            final(self).first == old(self).first,
            final(src).wf(),
            final(src).data@ == old(src).data@,
            old(src).rest().len() == 0 ==> r is None && final(src).rest() == old(src).rest()
                && final(self).count == old(self).count,
            old(src).rest().len() > 0 ==> (r matches Some((rec, n)) && rec@ == frame_spec(
                plaintext_chunks(old(src).rest())[0],
            ) && final(src).rest() == old(src).rest().skip(chunk_len(old(src).rest()) as int)
                && n.bytes@ == inc_n(old(self).first@, old(self).count@) && final(self).count@
                == old(self).count@ + 1 && (old(self).count@ < counter_space(
                old(self).first@.len(),
            ) ==> forall|k: nat|
                k < old(self).count@ ==> #[trigger] inc_n(old(self).first@, k) != n.bytes@)),
    {
        match next_plaintext_record(src) {
            None => None,
            Some(rec) => {
                let n = self.take();
                Some((rec, n))
            },
        }
    }

    /// Reads the next record from `src` and returns the sealed box with the
    /// nonce to open it under; `None` when the source ends exactly at a record
    /// boundary, with no nonce used.
    pub fn next_to_open(&mut self, src: &mut ByteSource) -> (res: Result<
        Option<(Vec<u8>, CryptoBoxNonce)>,
        AsymcryptError,
    >)
        requires
            old(self).wf(),
            old(src).wf(),
        ensures
            final(self).wf(),
            final(self).first == old(self).first,
            final(src).wf(),
            final(src).data@ == old(src).data@,
            match (res, parse_record(old(src).rest())) {
                (Ok(None), Ok(None)) => final(self).count == old(self).count,
                (Ok(Some((v, n))), Ok(Some(w))) => v@ == w && final(src).rest() == old(
                    src,
                ).rest().skip(RECORD_LEN as int) && n.bytes@ == inc_n(
                    old(self).first@,
                    old(self).count@,
                ) && final(self).count@ == old(self).count@ + 1,
                (Err(e), Err(f)) => e == f && final(self).count == old(self).count,
                _ => false,
            },
    {
        match next_sealed_record(src) {
            Err(e) => Err(e),
            Ok(None) => Ok(None),
            Ok(Some(sealed)) => {
                let n = self.take();
                Ok(Some((sealed, n)))
            },
        }
    }
}

/// A preamble written by `write_ciphertext_preamble`, followed by any bytes,
/// reads back as the same ephemeral public key and nonce.
pub proof fn lemma_ciphertext_preamble_round_trip(pk: Seq<u8>, nonce: Seq<u8>, tail: Seq<u8>)
    requires
        pk.len() == CRYPTO_BOX_PUBLICKEYBYTES,
        nonce.len() == CRYPTO_BOX_NONCEBYTES,
    ensures
        parse_ciphertext_preamble(ciphertext_preamble(pk, nonce) + tail) == Ok::<
            (Seq<u8>, Seq<u8>),
            AsymcryptError,
        >((pk, nonce)),
{
    let s = ciphertext_preamble(pk, nonce) + tail;
    lemma_header_prefix(CIPHERTEXTHEADER, pk + nonce + tail);
    assert(s =~= header_bytes(CIPHERTEXTHEADER) + (pk + nonce + tail));
    assert(s.subrange(13, 45) =~= pk);
    assert(s.subrange(45, 69) =~= nonce);
}

/// A chunk of 1 to `READ_SZ` bytes, framed for sealing, is recovered exactly
/// from the opened record.
pub proof fn lemma_frame_round_trip(c: Seq<u8>)
    requires
        0 < c.len() <= READ_SZ,
    ensures
        frame_spec(c).len() == BUF_SZ,
        unframe_spec(frame_spec(c)) == Ok::<Seq<u8>, AsymcryptError>(c),
{
    let p = frame_spec(c);
    let n = c.len() as u16;
    assert(p[32] == (n / 256) as u8 && p[33] == (n % 256) as u8);
    assert(be_value(p[32], p[33]) == n);
    assert(p.subrange(34, 34 + n) =~= c);
}

/// A sealed record written by `append_sealed_record`, followed by any bytes,
/// is read back by `next_sealed_record` as the same sealed box, given that the
/// box starts with the primitive's zero prefix.
pub proof fn lemma_record_round_trip(sealed: Seq<u8>, tail: Seq<u8>)
    requires
        sealed.len() == BUF_SZ,
        sealed.take(CRYPTO_BOX_BOXZEROBYTES as int) == zero_seq(CRYPTO_BOX_BOXZEROBYTES as nat),
    ensures
        parse_record(sealed.skip(CRYPTO_BOX_BOXZEROBYTES as int) + tail) == Ok::<
            Option<Seq<u8>>,
            AsymcryptError,
        >(Some(sealed)),
{
    let s = sealed.skip(CRYPTO_BOX_BOXZEROBYTES as int) + tail;
    assert(s.take(RECORD_LEN as int) =~= sealed.skip(CRYPTO_BOX_BOXZEROBYTES as int));
    assert(sealed =~= sealed.take(CRYPTO_BOX_BOXZEROBYTES as int) + sealed.skip(
        CRYPTO_BOX_BOXZEROBYTES as int,
    ));
}

/// Cutting a plaintext into chunks loses and adds nothing: the chunks joined
/// in order are the plaintext, and each holds 1 to `READ_SZ` bytes.
pub proof fn lemma_chunks_cover(s: Seq<u8>)
    ensures
        plaintext_chunks(s).flatten() == s,
        forall|i: int|
            0 <= i < plaintext_chunks(s).len() ==> 0 < #[trigger] plaintext_chunks(s)[i].len()
                <= READ_SZ,
    decreases s.len(),
{
    if s.len() > 0 {
        let k = chunk_len(s) as int;
        lemma_chunks_cover(s.skip(k));
        let cs = plaintext_chunks(s);
        assert(cs == seq![s.take(k)] + plaintext_chunks(s.skip(k)));
        assert(cs.drop_first() =~= plaintext_chunks(s.skip(k)));
        assert(cs.flatten() == cs[0] + cs.drop_first().flatten());
        assert(s =~= s.take(k) + s.skip(k));
        assert forall|i: int| 0 <= i < cs.len() implies 0 < #[trigger] cs[i].len() <= READ_SZ by {
            if i > 0 {
                assert(cs[i] == plaintext_chunks(s.skip(k))[i - 1]);
            }
        }
    } else {
        assert(plaintext_chunks(s).flatten() =~= s);
    }
}

} // verus!

use vstd::prelude::*;
use crate::bytes::{append_bytes, ByteSource};
use crate::error::{eof_error, AsymcryptError};
use crate::header::{
    check_header, expect_header, header_bytes, lemma_header_prefix, write_header, HEADER_LEN,
    KEYHEADER, PUBKEYHEADER,
};

verus! {

pub const CRYPTO_BOX_PUBLICKEYBYTES: usize = 32;
pub const CRYPTO_BOX_SECRETKEYBYTES: usize = 32;
pub const CRYPTO_SIGN_PUBLICKEYBYTES: usize = 32;
pub const CRYPTO_SIGN_SECRETKEYBYTES: usize = 64;

/// Header and the four key fields of a serialized `Key`.
pub const KEY_SERIALIZED_LEN: usize = 173;
/// Header and the two key fields of a serialized `PublicKey`.
pub const PUBLIC_KEY_SERIALIZED_LEN: usize = 77;

/// A copy of the bytes of `v`.
pub fn copy_bytes(v: &Vec<u8>) -> (r: Vec<u8>)
    ensures
        r@ == v@,
{
    let mut r: Vec<u8> = Vec::new();
    append_bytes(&mut r, v.as_slice());
    assert(r@ =~= v@);
    r
}

/// Overwrites every byte of `v` with zero.
pub fn wipe_bytes(v: &mut Vec<u8>)
    ensures
        final(v)@ == Seq::new(old(v)@.len(), |i: int| 0u8),
{
    let n = v.len();
    let mut i: usize = 0;
    while i < n
        invariant
            i <= n,
            v@.len() == n,
            n == old(v)@.len(),
            forall|j: int| 0 <= j < i ==> v@[j] == 0u8,
        decreases n - i,
    {
        v.set(i, 0u8);
        i = i + 1;
    }
    assert(v@ =~= Seq::new(old(v)@.len(), |i: int| 0u8));
}

/// Public key of the authenticated box.
#[derive(Clone, Debug)]
pub struct CryptoBoxPk {
    pub bytes: Vec<u8>,
}

/// Secret key of the authenticated box.
#[derive(Debug)]
pub struct CryptoBoxSk {
    pub bytes: Vec<u8>,
}

/// Public key of the signing scheme.
#[derive(Clone, Debug)]
pub struct CryptoSignPk {
    pub bytes: Vec<u8>,
}

/// Secret key of the signing scheme.
#[derive(Debug)]
pub struct CryptoSignSk {
    pub bytes: Vec<u8>,
}

impl CryptoBoxPk {
    pub open spec fn wf(&self) -> bool {
        self.bytes@.len() == CRYPTO_BOX_PUBLICKEYBYTES
    }

    /// An all-zero key, to be filled in by the primitive provider.
    pub fn zeroed() -> (r: CryptoBoxPk)
        ensures
            r.wf(),
            r.bytes@ == Seq::new(CRYPTO_BOX_PUBLICKEYBYTES as nat, |i: int| 0u8),
    {
        CryptoBoxPk { bytes: crate::random::zeros(CRYPTO_BOX_PUBLICKEYBYTES) }
    }
}

impl CryptoBoxSk {
    pub open spec fn wf(&self) -> bool {
        self.bytes@.len() == CRYPTO_BOX_SECRETKEYBYTES
    }

    /// An all-zero key, to be filled in by the primitive provider.
    pub fn zeroed() -> (r: CryptoBoxSk)
        ensures
            r.wf(),
            r.bytes@ == Seq::new(CRYPTO_BOX_SECRETKEYBYTES as nat, |i: int| 0u8),
    {
        CryptoBoxSk { bytes: crate::random::zeros(CRYPTO_BOX_SECRETKEYBYTES) }
    }

    /// Overwrites the secret bytes with zero.
    pub fn wipe(&mut self)
        ensures
            final(self).bytes@ == Seq::new(old(self).bytes@.len(), |i: int| 0u8),
    {
        wipe_bytes(&mut self.bytes);
    }
}

impl CryptoSignPk {
    pub open spec fn wf(&self) -> bool {
        self.bytes@.len() == CRYPTO_SIGN_PUBLICKEYBYTES
    }

    /// An all-zero key, to be filled in by the primitive provider.
    pub fn zeroed() -> (r: CryptoSignPk)
        ensures
            r.wf(),
            r.bytes@ == Seq::new(CRYPTO_SIGN_PUBLICKEYBYTES as nat, |i: int| 0u8),
    {
        CryptoSignPk { bytes: crate::random::zeros(CRYPTO_SIGN_PUBLICKEYBYTES) }
    }
}

impl CryptoSignSk {
    pub open spec fn wf(&self) -> bool {
        self.bytes@.len() == CRYPTO_SIGN_SECRETKEYBYTES
    }

    /// An all-zero key, to be filled in by the primitive provider.
    pub fn zeroed() -> (r: CryptoSignSk)
        ensures
            r.wf(),
            r.bytes@ == Seq::new(CRYPTO_SIGN_SECRETKEYBYTES as nat, |i: int| 0u8),
    {
        CryptoSignSk { bytes: crate::random::zeros(CRYPTO_SIGN_SECRETKEYBYTES) }
    }

    /// Overwrites the secret bytes with zero.
    pub fn wipe(&mut self)
        ensures
            final(self).bytes@ == Seq::new(old(self).bytes@.len(), |i: int| 0u8),
    {
        wipe_bytes(&mut self.bytes);
    }
}


/// The four key fields of a `Key`, in serialization order: box public,
/// box secret, signing public, signing secret.
pub type KeyFields = (Seq<u8>, Seq<u8>, Seq<u8>, Seq<u8>);

/// The two key fields of a `PublicKey`: box public, signing public.
pub type PublicKeyFields = (Seq<u8>, Seq<u8>);

/// A full keypair bundle: one box keypair and one signing keypair.
pub struct Key {
    pub box_sk: CryptoBoxSk,
    pub box_pk: CryptoBoxPk,
    pub sign_sk: CryptoSignSk,
    pub sign_pk: CryptoSignPk,
}

/// The public part of a `Key`.
#[derive(Clone, Debug)]
pub struct PublicKey {
    pub box_pk: CryptoBoxPk,
    pub sign_pk: CryptoSignPk,
}

/// The serialized form of a key with fields `f`.
pub open spec fn key_bytes(f: KeyFields) -> Seq<u8> {
    header_bytes(KEYHEADER) + f.0 + f.1 + f.2 + f.3
}

/// The serialized form of a public key with fields `f`.
pub open spec fn public_key_bytes(f: PublicKeyFields) -> Seq<u8> {
    header_bytes(PUBKEYHEADER) + f.0 + f.1
}

/// What reading a `Key` from the bytes `s` yields.
pub open spec fn parse_key(s: Seq<u8>) -> Result<KeyFields, AsymcryptError> {
    match check_header(s, KEYHEADER) {
        Err(e) => Err(e),
        Ok(_) => if s.len() < KEY_SERIALIZED_LEN {
            Err(eof_error())
        } else {
            Ok((s.subrange(13, 45), s.subrange(45, 77), s.subrange(77, 109), s.subrange(109, 173)))
        },
    }
}

/// What reading a `PublicKey` from the bytes `s` yields.
pub open spec fn parse_public_key(s: Seq<u8>) -> Result<PublicKeyFields, AsymcryptError> {
    match check_header(s, PUBKEYHEADER) {
        Err(e) => Err(e),
        Ok(_) => if s.len() < PUBLIC_KEY_SERIALIZED_LEN {
            Err(eof_error())
        } else {
            Ok((s.subrange(13, 45), s.subrange(45, 77)))
        },
    }
}

impl Key {
    pub open spec fn wf(&self) -> bool {
        self.box_pk.wf() && self.box_sk.wf() && self.sign_pk.wf() && self.sign_sk.wf()
    }

    pub open spec fn fields(&self) -> KeyFields {
        (self.box_pk.bytes@, self.box_sk.bytes@, self.sign_pk.bytes@, self.sign_sk.bytes@)
    }

    /// Bundles a box keypair and a signing keypair, as generated by the
    /// primitive provider.
    pub fn new(
        box_pk: CryptoBoxPk,
        box_sk: CryptoBoxSk,
        sign_pk: CryptoSignPk,
        sign_sk: CryptoSignSk,
    ) -> (r: Box<Key>)
        ensures
            r.fields() == (box_pk.bytes@, box_sk.bytes@, sign_pk.bytes@, sign_sk.bytes@),
    {
        Box::new(Key { box_sk, box_pk, sign_sk, sign_pk })
    }

    /// Overwrites both secret keys with zero; the public keys stay.
    pub fn wipe_secrets(&mut self)
        ensures
            final(self).box_sk.bytes@ == Seq::new(old(self).box_sk.bytes@.len(), |i: int| 0u8),
            final(self).sign_sk.bytes@ == Seq::new(old(self).sign_sk.bytes@.len(), |i: int| 0u8),
            final(self).box_pk == old(self).box_pk,
            final(self).sign_pk == old(self).sign_pk,
    {
        self.box_sk.wipe();
        self.sign_sk.wipe();
    }

    /// The public part of this key: copies of the two public fields.
    pub fn pub_key(&self) -> (r: PublicKey)
        ensures
            r.fields() == (self.box_pk.bytes@, self.sign_pk.bytes@),
    {
        PublicKey {
            box_pk: CryptoBoxPk { bytes: copy_bytes(&self.box_pk.bytes) },
            sign_pk: CryptoSignPk { bytes: copy_bytes(&self.sign_pk.bytes) },
        }
    }

    /// Writes the key's header and its four fields to `w`.
    pub fn write(&self, w: &mut Vec<u8>)
        ensures
            final(w)@ == old(w)@ + key_bytes(self.fields()),
    {
        write_header(w, KEYHEADER);
        append_bytes(w, self.box_pk.bytes.as_slice());
        append_bytes(w, self.box_sk.bytes.as_slice());
        append_bytes(w, self.sign_pk.bytes.as_slice());
        append_bytes(w, self.sign_sk.bytes.as_slice());
        assert(w@ =~= old(w)@ + key_bytes(self.fields()));
    }

    /// Reads a key written by `write` from `r`.
    pub fn read_boxed_from(r: &mut ByteSource) -> (res: Result<Box<Key>, AsymcryptError>)
        requires
            old(r).wf(),
        ensures
            final(r).wf(),
            final(r).data@ == old(r).data@,
            check_header(old(r).rest(), KEYHEADER) is Err ==> final(r).pos <= old(r).pos
                + HEADER_LEN,
            match res {
                Ok(k) => k.wf() && parse_key(old(r).rest()) == Ok::<KeyFields, AsymcryptError>(
                    k.fields(),
                ) && final(r).rest() == old(r).rest().skip(KEY_SERIALIZED_LEN as int),
                Err(e) => parse_key(old(r).rest()) == Err::<KeyFields, AsymcryptError>(e),
            },
    {
        let ghost s = r.rest();
        expect_header(r, KEYHEADER)?;
        let ghost s0 = r.rest();
        let box_pk = r.read_exact(CRYPTO_BOX_PUBLICKEYBYTES)?;
        let box_sk = r.read_exact(CRYPTO_BOX_SECRETKEYBYTES)?;
        let sign_pk = r.read_exact(CRYPTO_SIGN_PUBLICKEYBYTES)?;
        let sign_sk = r.read_exact(CRYPTO_SIGN_SECRETKEYBYTES)?;
        proof {
            assert(s0 =~= s.skip(13));
            assert(box_pk@ =~= s.subrange(13, 45));
            assert(box_sk@ =~= s.subrange(45, 77));
            assert(sign_pk@ =~= s.subrange(77, 109));
            assert(sign_sk@ =~= s.subrange(109, 173));
            assert(r.rest() =~= s.skip(173));
        }
        Ok(
            Box::new(
                Key {
                    box_sk: CryptoBoxSk { bytes: box_sk },
                    box_pk: CryptoBoxPk { bytes: box_pk },
                    sign_sk: CryptoSignSk { bytes: sign_sk },
                    sign_pk: CryptoSignPk { bytes: sign_pk },
                },
            ),
        )
    }
}

impl PublicKey {
    pub open spec fn wf(&self) -> bool {
        self.box_pk.wf() && self.sign_pk.wf()
    }

    pub open spec fn fields(&self) -> PublicKeyFields {
        (self.box_pk.bytes@, self.sign_pk.bytes@)
    }

    /// Writes the public key's header and its two fields to `w`.
    pub fn write(&self, w: &mut Vec<u8>)
        ensures
            final(w)@ == old(w)@ + public_key_bytes(self.fields()),
    {
        write_header(w, PUBKEYHEADER);
        append_bytes(w, self.box_pk.bytes.as_slice());
        append_bytes(w, self.sign_pk.bytes.as_slice());
        assert(w@ =~= old(w)@ + public_key_bytes(self.fields()));
    }

    /// Reads a public key written by `write` from `r`.
    pub fn read_from(r: &mut ByteSource) -> (res: Result<PublicKey, AsymcryptError>)
        requires
            old(r).wf(),
        ensures
            final(r).wf(),
            final(r).data@ == old(r).data@,
            check_header(old(r).rest(), PUBKEYHEADER) is Err ==> final(r).pos <= old(r).pos
                + HEADER_LEN,
            match res {
                Ok(k) => k.wf() && parse_public_key(old(r).rest()) == Ok::<
                    PublicKeyFields,
                    AsymcryptError,
                >(k.fields()) && final(r).rest() == old(r).rest().skip(
                    PUBLIC_KEY_SERIALIZED_LEN as int,
                ),
                Err(e) => parse_public_key(old(r).rest()) == Err::<PublicKeyFields, AsymcryptError>(
                    e,
                ),
            },
    {
        let ghost s = r.rest();
        expect_header(r, PUBKEYHEADER)?;
        let ghost s0 = r.rest();
        let box_pk = r.read_exact(CRYPTO_BOX_PUBLICKEYBYTES)?;
        let sign_pk = r.read_exact(CRYPTO_SIGN_PUBLICKEYBYTES)?;
        proof {
            assert(s0 =~= s.skip(13));
            assert(box_pk@ =~= s.subrange(13, 45));
            assert(sign_pk@ =~= s.subrange(45, 77));
            assert(r.rest() =~= s.skip(77));
        }
        Ok(PublicKey { box_pk: CryptoBoxPk { bytes: box_pk }, sign_pk: CryptoSignPk { bytes: sign_pk } })
    }
}

/// Reading back what `Key::write` wrote, followed by any further bytes,
/// yields byte-identical fields.
pub proof fn lemma_key_round_trip(f: KeyFields, tail: Seq<u8>)
    requires
        f.0.len() == CRYPTO_BOX_PUBLICKEYBYTES,
        f.1.len() == CRYPTO_BOX_SECRETKEYBYTES,
        f.2.len() == CRYPTO_SIGN_PUBLICKEYBYTES,
        f.3.len() == CRYPTO_SIGN_SECRETKEYBYTES,
    ensures
        parse_key(key_bytes(f) + tail) == Ok::<KeyFields, AsymcryptError>(f),
{
    let s = key_bytes(f) + tail;
    lemma_header_prefix(KEYHEADER, f.0 + f.1 + f.2 + f.3 + tail);
    assert(s =~= header_bytes(KEYHEADER) + (f.0 + f.1 + f.2 + f.3 + tail));
    assert(s.subrange(13, 45) =~= f.0);
    assert(s.subrange(45, 77) =~= f.1);
    assert(s.subrange(77, 109) =~= f.2);
    assert(s.subrange(109, 173) =~= f.3);
}

/// Reading back what `PublicKey::write` wrote, followed by any further bytes,
/// yields byte-identical fields.
pub proof fn lemma_public_key_round_trip(f: PublicKeyFields, tail: Seq<u8>)
    requires
        f.0.len() == CRYPTO_BOX_PUBLICKEYBYTES,
        f.1.len() == CRYPTO_SIGN_PUBLICKEYBYTES,
    ensures
        parse_public_key(public_key_bytes(f) + tail) == Ok::<PublicKeyFields, AsymcryptError>(f),
{
    let s = public_key_bytes(f) + tail;
    lemma_header_prefix(PUBKEYHEADER, f.0 + f.1 + tail);
    assert(s =~= header_bytes(PUBKEYHEADER) + (f.0 + f.1 + tail));
    assert(s.subrange(13, 45) =~= f.0);
    assert(s.subrange(45, 77) =~= f.1);
}

} // verus!

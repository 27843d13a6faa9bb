use vstd::prelude::*;
use crate::bytes::{append_bytes, ByteSource};
use crate::error::{eof_error, AsymcryptError};

verus! {

/// The type tag of a header.
pub type AsymcryptHeaderType = u16;

pub const KEYHEADER: AsymcryptHeaderType = 0;
pub const PUBKEYHEADER: AsymcryptHeaderType = 1;
pub const SIGNATUREHEADER: AsymcryptHeaderType = 2;
pub const CIPHERTEXTHEADER: AsymcryptHeaderType = 3;
/// One past the largest known type tag.
pub const HEADEREND: AsymcryptHeaderType = 4;

/// The protocol version that this library writes and accepts.
pub const PROTOCOL_VERSION: u16 = 2;

pub const MAGIC_LEN: usize = 9;
/// Magic, version and type tag together.
pub const HEADER_LEN: usize = 13;

/// The magic bytes, ASCII "asymcrypt".
pub open spec fn magic_spec() -> Seq<u8> {
    seq![0x61u8, 0x73u8, 0x79u8, 0x6du8, 0x63u8, 0x72u8, 0x79u8, 0x70u8, 0x74u8]
}

/// A 16-bit value as two big-endian bytes.
pub open spec fn be16(v: u16) -> Seq<u8> {
    seq![(v / 256) as u8, (v % 256) as u8]
}

/// The 16-bit value of two big-endian bytes.
pub open spec fn be_value(hi: u8, lo: u8) -> u16 {
    (hi * 256 + lo) as u16
}

/// The serialized header of an artifact of type `t`.
pub open spec fn header_bytes(t: u16) -> Seq<u8> {
    magic_spec() + be16(PROTOCOL_VERSION) + be16(t)
}

/// What reading a header from the bytes `s` yields.
pub open spec fn parse_header(s: Seq<u8>) -> Result<AsymcryptHeaderType, AsymcryptError> {
    if s.len() < MAGIC_LEN {
        Err(eof_error())
    } else if s.take(MAGIC_LEN as int) != magic_spec() {
        Err(AsymcryptError::InvalidDataError)
    } else if s.len() < HEADER_LEN {
        Err(eof_error())
    } else if be_value(s[9], s[10]) != PROTOCOL_VERSION {
        Err(AsymcryptError::UnsupportedVersionError)
    } else if be_value(s[11], s[12]) >= HEADEREND {
        Err(AsymcryptError::InvalidDataError)
    } else {
        Ok(be_value(s[11], s[12]))
    }
}

/// What checking the bytes `s` for a header of type `t` yields.
pub open spec fn check_header(s: Seq<u8>, t: AsymcryptHeaderType) -> Result<(), AsymcryptError> {
    match parse_header(s) {
        Ok(found) => if found == t {
            Ok(())
        } else {
            Err(AsymcryptError::UnexpectedDataTypeError)
        },
        Err(e) => Err(e),
    }
}

/// The type tag `t` if it is a known one.
pub fn u16_to_header_type(t: u16) -> (r: Option<AsymcryptHeaderType>)
    ensures
        r == (if t < HEADEREND {
            Some(t)
        } else {
            None::<AsymcryptHeaderType>
        }),
{
    if t >= KEYHEADER && t < HEADEREND {
        Some(t)
    } else {
        None
    }
}

/// Splits `v` into its big-endian high and low bytes.
pub fn u16_be_bytes(v: u16) -> (r: (u8, u8))
    ensures
        r.0 == v / 256,
        r.1 == v % 256,
        seq![r.0, r.1] == be16(v),
{
    ((v / 256) as u8, (v % 256) as u8)
}

/// Joins big-endian high and low bytes into a 16-bit value.
pub fn be_bytes_to_u16(hi: u8, lo: u8) -> (r: u16)
    ensures
        r == hi * 256 + lo,
        r == be_value(hi, lo),
{
    (hi as u16) * 256 + (lo as u16)
}

/// The magic bytes.
pub fn magic_bytes() -> (r: Vec<u8>)
    ensures
        r@ == magic_spec(),
{
    let r: Vec<u8> = vec![0x61u8, 0x73u8, 0x79u8, 0x6du8, 0x63u8, 0x72u8, 0x79u8, 0x70u8, 0x74u8];
    assert(r@ =~= magic_spec());
    r
}

/// Whether two byte strings are equal.
pub fn bytes_equal(a: &[u8], b: &[u8]) -> (r: bool)
    ensures
        r == (a@ == b@),
{
    if a.len() != b.len() {
        return false;
    }
    let mut i: usize = 0;
    while i < a.len()
        invariant
            a@.len() == b@.len(),
            i <= a@.len(),
            forall|j: int| 0 <= j < i ==> a@[j] == b@[j],
        decreases a@.len() - i,
    {
        if a[i] != b[i] {
            return false;
        }
        i = i + 1;
    }
    assert(a@ =~= b@);
    true
}

/// Writes the header of an artifact of type `val_type` to `w`.
pub fn write_header(w: &mut Vec<u8>, val_type: AsymcryptHeaderType)
    ensures
        final(w)@ == old(w)@ + header_bytes(val_type),
        final(w)@.len() == old(w)@.len() + HEADER_LEN,
{
    let magic = magic_bytes();
    append_bytes(w, magic.as_slice());
    let (a, b) = u16_be_bytes(PROTOCOL_VERSION);
    let (c, d) = u16_be_bytes(val_type);
    w.push(a);
    w.push(b);
    w.push(c);
    w.push(d);
    assert(w@ =~= old(w)@ + header_bytes(val_type));
}

/// Reads a header from `r` and returns its type tag.
pub fn read_header(r: &mut ByteSource) -> (res: Result<AsymcryptHeaderType, AsymcryptError>)
    requires
        old(r).wf(),
    ensures
        final(r).wf(),
        final(r).data@ == old(r).data@,
        res == parse_header(old(r).rest()),
        res is Ok ==> final(r).rest() == old(r).rest().skip(HEADER_LEN as int),
        old(r).pos <= final(r).pos <= old(r).pos + HEADER_LEN,
{
    let ghost s = r.rest();
    let magic = magic_bytes();
    let magic_buf = r.read_exact(MAGIC_LEN)?;
    if !bytes_equal(magic.as_slice(), magic_buf.as_slice()) {
        return Err(AsymcryptError::InvalidDataError);
    }
    let ghost s1 = r.rest();
    let ver_and_val = r.read_exact(4)?;
    proof {
        assert(s1 =~= s.skip(9));
        assert(ver_and_val@ =~= s.subrange(9, 13));
        assert(r.rest() =~= s.skip(HEADER_LEN as int));
    }
    let ver = be_bytes_to_u16(ver_and_val[0], ver_and_val[1]);
    let val_type = be_bytes_to_u16(ver_and_val[2], ver_and_val[3]);
    if ver != PROTOCOL_VERSION {
        Err(AsymcryptError::UnsupportedVersionError)
    } else {
        match u16_to_header_type(val_type) {
            Some(t) => Ok(t),
            None => Err(AsymcryptError::InvalidDataError),
        }
    }
}

/// Reads a header from `r` and checks that its type tag is `val_type`.
pub fn expect_header(r: &mut ByteSource, val_type: AsymcryptHeaderType) -> (res: Result<
    (),
    AsymcryptError,
>)
    requires
        old(r).wf(),
    ensures
        final(r).wf(),
        final(r).data@ == old(r).data@,
        res == check_header(old(r).rest(), val_type),
        parse_header(old(r).rest()) is Ok ==> final(r).rest() == old(r).rest().skip(
            HEADER_LEN as int,
        ),
        old(r).pos <= final(r).pos <= old(r).pos + HEADER_LEN,
{
    let read_val_type = read_header(r)?;
    if read_val_type == val_type {
        Ok(())
    } else {
        Err(AsymcryptError::UnexpectedDataTypeError)
    }
}


/// A header written by `write_header`, followed by any bytes, reads back as
/// its type tag when that tag is a known one, and passes the check for it.
pub proof fn lemma_header_prefix(t: AsymcryptHeaderType, tail: Seq<u8>)
    requires
        t < HEADEREND,
    ensures
        parse_header(header_bytes(t) + tail) == Ok::<AsymcryptHeaderType, AsymcryptError>(t),
        check_header(header_bytes(t) + tail, t) == Ok::<(), AsymcryptError>(()),
{
    let s = header_bytes(t) + tail;
    assert(s.take(MAGIC_LEN as int) =~= magic_spec());
    assert(s[9] == 0u8 && s[10] == 2u8);
    assert(s[11] == (t / 256) as u8 && s[12] == (t % 256) as u8);
    assert(be_value(s[11], s[12]) == t);
}

} // verus!

use vstd::prelude::*;
use rand::rngs::OsRng;
use rand::RngCore;

verus! {

#[verifier::external_type_specification]
#[verifier::external_body]
pub struct ExOsRng(rand::rngs::OsRng);

#[verifier::external_type_specification]
#[verifier::external_body]
pub struct ExRandError(rand::Error);

/// Relies on rand's `OsRng::new`: opens the operating system's secure
/// random source, or reports why it could not.
#[verifier::external_body]
pub(crate) fn open_os_rng() -> (r: Result<OsRng, rand::Error>) {
    OsRng::new()
}

/// Relies on rand's `RngCore::try_fill_bytes` for `OsRng`: overwrites the
/// bytes of `dest` in place with random ones, or reports the operating
/// system's failure as an error; either way its length stays as it was.
#[verifier::external_body]
pub(crate) fn fill_random(rng: &mut OsRng, dest: &mut Vec<u8>) -> (r: Result<(), rand::Error>)
    ensures
        final(dest)@.len() == old(dest)@.len(),
{
    rng.try_fill_bytes(dest.as_mut_slice())
}

/// `n` zero bytes.
pub fn zeros(n: usize) -> (r: Vec<u8>)
    ensures
        r@ == Seq::new(n as nat, |i: int| 0u8),
{
    let mut r: Vec<u8> = Vec::new();
    let mut i: usize = 0;
    while i < n
        invariant
            i <= n,
            r@ == Seq::new(i as nat, |j: int| 0u8),
        decreases n - i,
    {
        r.push(0u8);
        i = i + 1;
        assert(r@ =~= Seq::new(i as nat, |j: int| 0u8));
    }
    r
}

/// `n` bytes from the operating system's secure random source; `None` when
/// that source cannot be opened or fails to deliver them.
pub fn random_bytes(n: usize) -> (r: Option<Vec<u8>>)
    ensures
        r matches Some(v) ==> v@.len() == n,
{
    match open_os_rng() {
        Ok(mut rng) => {
            let mut buf = zeros(n);
            match fill_random(&mut rng, &mut buf) {
                Ok(()) => Some(buf),
                Err(_) => None,
            }
        },
        Err(_) => None,
    }
}

} // verus!

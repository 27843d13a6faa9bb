use vstd::prelude::*;
use crate::error::{AsymcryptError, IoFailure};
use crate::random::random_bytes;
use vstd::arithmetic::div_mod::{
    lemma_add_mod_noop, lemma_fundamental_div_mod, lemma_fundamental_div_mod_converse,
    lemma_mod_pos_bound,
};

verus! {

/// The width of a box nonce in bytes.
pub const CRYPTO_BOX_NONCEBYTES: usize = 24;

/// Whether a carry out of every byte below index `i` reaches byte `i`:
/// all of them hold 0xff.
pub open spec fn carries_into(s: Seq<u8>, i: int) -> bool {
    forall|j: int| 0 <= j < i ==> s[j] == 0xffu8
}

/// `s` read as a little-endian counter, plus one (wrapping to all zero).
pub open spec fn inc_spec(s: Seq<u8>) -> Seq<u8> {
    Seq::new(
        s.len(),
        |i: int|
            if carries_into(s, i) {
                (if s[i] == 0xffu8 {
                    0u8
                } else {
                    (s[i] + 1) as u8
                })
            } else {
                s[i]
            },
    )
}

/// The nonce reached from `s` after `k` increments.
pub open spec fn inc_n(s: Seq<u8>, k: nat) -> Seq<u8>
    decreases k,
{
    if k == 0 {
        s
    } else {
        inc_spec(inc_n(s, (k - 1) as nat))
    }
}


/// The value of `s` read as a little-endian unsigned number.
pub open spec fn le_value(s: Seq<u8>) -> int
    decreases s.len(),
{
    if s.len() == 0 {
        0
    } else {
        s[0] as int + 256 * le_value(s.drop_first())
    }
}

/// How many values a counter of `n` bytes takes: 256 to the power `n`.
pub open spec fn counter_space(n: nat) -> int
    decreases n,
{
    if n == 0 {
        1
    } else {
        256 * counter_space((n - 1) as nat)
    }
}

/// A little-endian value is below the size of its counter space.
pub proof fn lemma_le_value_bound(s: Seq<u8>)
    ensures
        0 <= le_value(s) < counter_space(s.len()),
        counter_space(s.len()) > 0,
    decreases s.len(),
{
    if s.len() > 0 {
        lemma_le_value_bound(s.drop_first());
        let v = le_value(s.drop_first());
        let m = counter_space(s.drop_first().len());
        let b = s[0] as int;
        assert(0 <= b + 256 * v < 256 * m) by (nonlinear_arith)
            requires
                0 <= b <= 255,
                0 <= v < m,
        ;
    }
}

/// Incrementing adds one to the little-endian value, modulo the counter space.
pub proof fn lemma_inc_value(s: Seq<u8>)
    ensures
        inc_spec(s).len() == s.len(),
        le_value(inc_spec(s)) == (le_value(s) + 1) % counter_space(s.len()),
    decreases s.len(),
{
    let m = counter_space(s.len());
    lemma_le_value_bound(s);
    if s.len() == 0 {
        assert(inc_spec(s) =~= s);
    } else {
        let t = s.drop_first();
        let mt = counter_space(t.len());
        lemma_le_value_bound(t);
        if s[0] != 0xffu8 {
            assert(inc_spec(s).drop_first() =~= t) by {
                assert forall|i: int| 1 <= i < s.len() implies !carries_into(s, i) by {
                    assert(s[0] != 0xffu8);
                }
            }
            assert(inc_spec(s)[0] == s[0] + 1) by {
                assert(carries_into(s, 0));
            }
            assert(le_value(s) + 1 < m) by (nonlinear_arith)
                requires
                    le_value(s) == s[0] + 256 * le_value(t),
                    s[0] < 255,
                    le_value(t) < mt,
                    m == 256 * mt,
            ;
            lemma_fundamental_div_mod_converse(le_value(s) + 1, m, 0, le_value(s) + 1);
        } else {
            assert(inc_spec(s).drop_first() =~= inc_spec(t)) by {
                assert forall|i: int| 0 <= i < t.len() implies carries_into(s, i + 1)
                    == carries_into(t, i) by {
                    if carries_into(t, i) {
                        assert forall|j: int| 0 <= j < i + 1 implies s[j] == 0xffu8 by {
                            if j > 0 {
                                assert(t[j - 1] == s[j]);
                            }
                        }
                    }
                    if carries_into(s, i + 1) {
                        assert forall|j: int| 0 <= j < i implies t[j] == 0xffu8 by {
                            assert(s[j + 1] == t[j]);
                        }
                    }
                }
            }
            assert(inc_spec(s)[0] == 0u8) by {
                assert(carries_into(s, 0));
            }
            lemma_inc_value(t);
            let w = le_value(t) + 1;
            lemma_fundamental_div_mod(w, mt);
            lemma_mod_pos_bound(w, mt);
            let q = w / mt;
            let r = w % mt;
            assert(le_value(s) + 1 == q * m + 256 * r) by (nonlinear_arith)
                requires
                    le_value(s) == 255 + 256 * le_value(t),
                    w == le_value(t) + 1,
                    w == mt * q + r,
                    m == 256 * mt,
            ;
            assert(0 <= 256 * r < m) by (nonlinear_arith)
                requires
                    0 <= r < mt,
                    m == 256 * mt,
            ;
            lemma_fundamental_div_mod_converse(le_value(s) + 1, m, q, 256 * r);
        }
    }
}

/// After `k` increments the little-endian value has grown by `k`, modulo the
/// counter space.
pub proof fn lemma_inc_n_value(s: Seq<u8>, k: nat)
    ensures
        inc_n(s, k).len() == s.len(),
        le_value(inc_n(s, k)) == (le_value(s) + k) % counter_space(s.len()),
    decreases k,
{
    let m = counter_space(s.len());
    lemma_le_value_bound(s);
    if k == 0 {
        lemma_fundamental_div_mod_converse(le_value(s), m, 0, le_value(s));
    } else {
        let prev = inc_n(s, (k - 1) as nat);
        lemma_inc_n_value(s, (k - 1) as nat);
        lemma_inc_value(prev);
        let x = le_value(s) + k - 1;
        lemma_add_mod_noop(x, 1, m);
        if m == 1 {
            lemma_fundamental_div_mod_converse(1, 1, 1, 0);
        } else {
            lemma_fundamental_div_mod_converse(1, m, 0, 1);
        }
    }
}

/// Within one message no two chunks share a nonce: starting from any nonce,
/// the nonces after `i` and after `j` increments differ whenever `i` and `j`
/// differ and stay below the size of the counter space.
pub proof fn lemma_nonces_distinct(s: Seq<u8>, i: nat, j: nat)
    requires
        i < j < counter_space(s.len()),
    ensures
        inc_n(s, i) != inc_n(s, j),
{
    let m = counter_space(s.len());
    lemma_le_value_bound(s);
    lemma_inc_n_value(s, i);
    lemma_inc_n_value(s, j);
    let a = le_value(s) + i;
    let d = j - i;
    lemma_fundamental_div_mod(a, m);
    lemma_mod_pos_bound(a, m);
    let q = a / m;
    let r = a % m;
    if r + d < m {
        assert(a + d == q * m + (r + d)) by (nonlinear_arith)
            requires
                a == m * q + r,
        ;
        lemma_fundamental_div_mod_converse(a + d, m, q, r + d);
    } else {
        assert(a + d == (q + 1) * m + (r + d - m)) by (nonlinear_arith)
            requires
                a == m * q + r,
        ;
        lemma_fundamental_div_mod_converse(a + d, m, q + 1, r + d - m);
    }
}

/// A nonce of the authenticated box: a counter of fixed width.
#[derive(Clone, Debug)]
pub struct CryptoBoxNonce {
    pub bytes: Vec<u8>,
}

impl CryptoBoxNonce {
    pub open spec fn wf(&self) -> bool {
        self.bytes@.len() == CRYPTO_BOX_NONCEBYTES
    }

    /// A nonce filled entirely from the operating system's secure random source.
    pub fn new() -> (r: Result<CryptoBoxNonce, AsymcryptError>)
        ensures
            r matches Ok(n) ==> n.wf(),
            r matches Err(e) ==> e == AsymcryptError::IOError(IoFailure::Other),
    {
        match random_bytes(CRYPTO_BOX_NONCEBYTES) {
            Some(bytes) => Ok(CryptoBoxNonce { bytes }),
            None => Err(AsymcryptError::IOError(IoFailure::Other)),
        }
    }

    /// Advances the nonce by one, as a little-endian counter: byte 0 is
    /// incremented and each byte that wraps to zero carries into the next.
    pub fn inc(&mut self)
        ensures
            final(self).bytes@ == inc_spec(old(self).bytes@),
    {
        let ghost s = self.bytes@;
        let n = self.bytes.len();
        let mut x: usize = 0;
        while x < n
            invariant
                n == s.len(),
                s == old(self).bytes@,
                self.bytes@.len() == n,
                x <= n,
                carries_into(s, x as int),
                forall|j: int| 0 <= j < x ==> self.bytes@[j] == 0u8,
                forall|j: int| x <= j < n ==> self.bytes@[j] == s[j],
            decreases n - x,
        {
            let b = self.bytes[x].wrapping_add(1);
            assert(b == (if s[x as int] == 0xffu8 {
                0u8
            } else {
                (s[x as int] + 1) as u8
            }));
            self.bytes.set(x, b);
            if b != 0 {
                proof {
                    assert(s[x as int] != 0xffu8);
                    assert forall|i: int| x < i < n implies !carries_into(s, i) by {
                        assert(s[x as int] != 0xffu8);
                    }
                }
                assert(self.bytes@ =~= inc_spec(s));
                return;
            }
            x = x + 1;
        }
        assert(self.bytes@ =~= inc_spec(s));
    }
}

} // verus!

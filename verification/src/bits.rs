//! A packed bit array over bytes, little-endian within each byte.
//!
//! Both filter payloads are bit arrays; the Bloom path sets and probes
//! single bits and the ribbon path stores the solution of its linear
//! system here.
use vstd::prelude::*;
use vstd::arithmetic::div_mod::lemma_fundamental_div_mod;

verus! {

/// Bit `i` of the packed array.
pub open spec fn spec_get_bit(bytes: Seq<u8>, i: int) -> bool
    recommends
        0 <= i < 8 * bytes.len(),
{
    (bytes[i / 8] >> ((i % 8) as u8)) & 1 == 1
}

/// The packed array with bit `i` turned on and every other bit unchanged.
pub open spec fn spec_set_bit(bytes: Seq<u8>, i: int) -> Seq<u8>
    recommends
        0 <= i < 8 * bytes.len(),
{
    bytes.update(i / 8, bytes[i / 8] | (1u8 << ((i % 8) as u8)))
}

/// Setting a bit never changes the byte length.
pub proof fn lemma_set_bit_len(bytes: Seq<u8>, i: int)
    requires
        0 <= i < 8 * bytes.len(),
    ensures
        spec_set_bit(bytes, i).len() == bytes.len(),
{
    assert(0 <= i / 8 < bytes.len()) by (nonlinear_arith)
        requires
            0 <= i < 8 * bytes.len(),
    ;
}

/// Setting bit `i` turns it on and leaves every other bit as it was.
pub proof fn lemma_set_bit_effect(bytes: Seq<u8>, i: int, j: int)
    requires
        0 <= i < 8 * bytes.len(),
        0 <= j < 8 * bytes.len(),
    ensures
        spec_get_bit(spec_set_bit(bytes, i), j) == if j == i {
            true
        } else {
            spec_get_bit(bytes, j)
        },
{
    lemma_fundamental_div_mod(i, 8);
    lemma_fundamental_div_mod(j, 8);
    let b = bytes[i / 8];
    let ki = (i % 8) as u8;
    let kj = (j % 8) as u8;
    if i / 8 == j / 8 {
        if j == i {
            assert(((b | (1u8 << ki)) >> ki) & 1 == 1) by (bit_vector)
                requires
                    ki < 8,
            ;
        } else {
            assert(ki != kj);
            assert(((b | (1u8 << ki)) >> kj) & 1 == (b >> kj) & 1) by (bit_vector)
                requires
                    ki < 8,
                    kj < 8,
                    ki != kj,
            ;
        }
    }
}

/// Read one bit of the packed array.
pub fn get_bit(bytes: &Vec<u8>, i: u64) -> (r: bool)
    requires
        i < 8 * bytes@.len(),
    ensures
        r == spec_get_bit(bytes@, i as int),
{
    let _len: usize = bytes.len();
    proof {
        assert(i / 8 < _len) by (nonlinear_arith)
            requires
                i < 8 * _len,
        ;
    }
    let byte = bytes[(i / 8) as usize];
    (byte >> ((i % 8) as u8)) & 1 == 1
}

/// Turn one bit of the packed array on.
pub fn set_bit(bytes: &mut Vec<u8>, i: u64)
    requires
        i < 8 * old(bytes)@.len(),
    ensures
        final(bytes)@ == spec_set_bit(old(bytes)@, i as int),
{
    let _len: usize = bytes.len();
    proof {
        assert(i / 8 < _len) by (nonlinear_arith)
            requires
                i < 8 * _len,
        ;
    }
    let idx = (i / 8) as usize;
    let byte = bytes[idx];
    bytes.set(idx, byte | (1u8 << ((i % 8) as u8)));
}

/// A byte vector of `n` zero bytes: every bit is off.
pub fn zero_bytes(n: usize) -> (r: Vec<u8>)
    ensures
        r@ == Seq::new(n as nat, |k: int| 0u8),
        forall|j: int| 0 <= j < 8 * n ==> !spec_get_bit(r@, j),
{
    let mut v: Vec<u8> = Vec::new();
    let mut i: usize = 0;
    while i < n
        invariant
            i <= n,
            v@ =~= Seq::new(i as nat, |k: int| 0u8),
        decreases n - i,
    {
        v.push(0u8);
        i = i + 1;
    }
    proof {
        assert forall|j: int| 0 <= j < 8 * n implies !spec_get_bit(v@, j) by {
            assert(0 <= j / 8 < n) by (nonlinear_arith)
                requires
                    0 <= j < 8 * n,
            ;
            let kj = (j % 8) as u8;
            assert((0u8 >> kj) & 1 == 0) by (bit_vector);
        }
    }
    v
}

} // verus!

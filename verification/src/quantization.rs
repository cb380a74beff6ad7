use vstd::arithmetic::div_mod::{
    lemma_div_multiples_vanish, lemma_small_mod, lemma_div_pos_is_pos, lemma_fundamental_div_mod,
    lemma_mod_multiples_basic, lemma_mod_pos_bound, lemma_multiply_divide_lt,
};
use vstd::arithmetic::power2::{lemma2_to64, lemma_pow2_adds, lemma_pow2_pos, pow2};
use vstd::bits::lemma_u16_shr_is_div;
use vstd::prelude::*;

use crate::integer::IntegerTrait;

verus! {

/// The value `v` with its lower `n` bits set to zero.
pub open spec fn lower_bits_cleared(v: int, n: nat) -> int {
    (v / (pow2(n) as int)) * (pow2(n) as int)
}

/// Clearing the lower `n` bits of a non-negative value gives a multiple of `2^n` that lies at or
/// below the value and less than `2^n` below it; clearing them again changes nothing.
pub proof fn lemma_lower_bits_cleared(v: int, n: nat)
    requires
        0 <= v,
    ensures
        0 <= lower_bits_cleared(v, n) <= v,
        v - lower_bits_cleared(v, n) < pow2(n),
        lower_bits_cleared(v, n) % (pow2(n) as int) == 0,
        lower_bits_cleared(lower_bits_cleared(v, n), n) == lower_bits_cleared(v, n),
{
    let d = pow2(n) as int;
    lemma_pow2_pos(n);
    lemma_fundamental_div_mod(v, d);
    lemma_mod_pos_bound(v, d);
    lemma_div_pos_is_pos(v, d);
    let q = v / d;
    assert(q * d == d * q) by (nonlinear_arith);
    assert(0 <= q * d) by (nonlinear_arith)
        requires
            0 <= q,
            0 < d,
    ;
    lemma_mod_multiples_basic(q, d);
    lemma_div_multiples_vanish(q, d);
}

/// Returns a reduced integer by removing the given number of bits.
///
/// # Arguments
/// * `x` - The value to be reduced.
/// * `num_bits` - The number of bits to remove.
pub fn reduce_accuracy_u16(x: u16, num_bits: u16) -> (r: u16)
    requires
        num_bits < 16,
    ensures
        r == x as nat / pow2(num_bits as nat),
        r < pow2((16 - num_bits) as nat),
{
    proof {
        lemma_u16_shr_is_div(x, num_bits);
        lemma2_to64();
        lemma_pow2_pos(num_bits as nat);
        lemma_pow2_adds(num_bits as nat, (16 - num_bits) as nat);
        assert(pow2(num_bits as nat) * pow2((16 - num_bits) as nat) == pow2(16));
        lemma_multiply_divide_lt(
            x as int,
            pow2(num_bits as nat) as int,
            pow2((16 - num_bits) as nat) as int,
        );
    }
    x >> num_bits
}

/// Reduces the accuracy of the given vector of three 16-bit integers.
///
/// # Arguments
/// * `x` - The vector to reduce.
/// * `num_bits` - The number of bits to remove/ to reduce.
pub fn reduce_accuracy_uvec16(x: &mut [u16; 3], num_bits: u16)
    requires
        num_bits < 16,
    ensures
        forall|i: int|
            0 <= i < 3 ==> #[trigger] final(x)@[i] == old(x)@[i] as nat / pow2(num_bits as nat),
{
    let a = reduce_accuracy_u16(x[0], num_bits);
    let b = reduce_accuracy_u16(x[1], num_bits);
    let c = reduce_accuracy_u16(x[2], num_bits);
    x[0] = a;
    x[1] = b;
    x[2] = c;
}

/// Returns the given integer and removes the lower n bits.
///
/// # Arguments
/// * `x` - The integer whose lower bits will be reduced
/// * `n` - The number of bits to remove.
pub fn reduce_lower_bits<Integer: IntegerTrait>(x: Integer, n: usize) -> (r: Integer)
    requires
        n < Integer::bits(),
    ensures
        r.as_int() == lower_bits_cleared(x.as_int(), n as nat),
{
    proof {
        Integer::lemma_range(x);
        lemma_lower_bits_cleared(x.as_int(), n as nat);
    }
    let s = x.shr(n);
    let r = s.shl(n);
    proof {
        Integer::lemma_range(s);
        lemma_pow2_pos(Integer::bits());
        lemma_small_mod(
            lower_bits_cleared(x.as_int(), n as nat) as nat,
            pow2(Integer::bits()),
        );
    }
    r
}

} // verus!

use vstd::arithmetic::div_mod::lemma_small_mod;
use vstd::arithmetic::power2::{lemma2_to64, pow2};
use vstd::bits::{
    lemma_u16_shr_is_div, lemma_u32_shr_is_div, lemma_u64_shl_is_mul, lemma_u8_shr_is_div,
    lemma_usize_shr_is_div,
};
use vstd::prelude::*;

verus! {

/// Extended trait for the unsigned integer types used for quantized data.
pub trait IntegerTrait: Copy + Sized {
    /// The number of bits of the integer type.
    spec fn bits() -> nat;

    /// The mathematical value of the integer.
    spec fn as_int(&self) -> int;

    /// Every value of the type lies in `0..2^bits`, and the type has at least 8 bits.
    proof fn lemma_range(x: Self)
        ensures
            8 <= Self::bits() <= 64,
            0 <= x.as_int() < pow2(Self::bits()),
    ;

    /// Returns the number of bits of the integer type.
    fn num_bits() -> (r: usize)
        ensures
            r == Self::bits(),
    ;

    /// Returns the largest value of the integer type.
    fn max_value() -> (r: Self)
        ensures
            r.as_int() == pow2(Self::bits()) - 1,
    ;

    /// Returns the smallest value of the integer type.
    fn min_value() -> (r: Self)
        ensures
            r.as_int() == 0,
    ;

    /// Returns zero.
    fn zero() -> (r: Self)
        ensures
            r.as_int() == 0,
    ;

    /// Converts the given 32-bit integer, keeping its lower bits.
    fn from_u32(x: u32) -> (r: Self)
        ensures
            r.as_int() == x as int % (pow2(Self::bits()) as int),
    ;

    /// Converts the integer to 32 bits, keeping its lower bits.
    fn to_u32(&self) -> (r: u32)
        ensures
            r == self.as_int() % (pow2(32) as int),
    ;

    /// Converts the integer to `usize`.
    fn to_usize(&self) -> (r: usize)
        ensures
            r == self.as_int(),
    ;

    /// Shifts the integer right by `n` bits.
    fn shr(self, n: usize) -> (r: Self)
        requires
            n < Self::bits(),
        ensures
            r.as_int() == self.as_int() / (pow2(n as nat) as int),
    ;

    /// Shifts the integer left by `n` bits, dropping the bits shifted out of the type.
    fn shl(self, n: usize) -> (r: Self)
        requires
            n < Self::bits(),
        ensures
            r.as_int() == (self.as_int() * pow2(n as nat)) % (pow2(Self::bits()) as int),
    ;
}

/// Shifting a value below `2^32` left by fewer than 32 bits within 64 bits multiplies it by a
/// power of two.
proof fn lemma_wide_shl(x: u64, s: u64)
    requires
        x < 0x1_0000_0000,
        s < 32,
    ensures
        (x << s) == x * pow2(s as nat),
{
    lemma2_to64();
    vstd::arithmetic::power2::lemma_pow2_strictly_increases(s as nat, 32);
    assert(x * pow2(s as nat) <= u64::MAX) by (nonlinear_arith)
        requires
            x < 0x1_0000_0000,
            pow2(s as nat) < 0x1_0000_0000,
    ;
    lemma_u64_shl_is_mul(x, s);
}

/// Shifting a value below `2^64` left by fewer than 64 bits within 128 bits multiplies it by a
/// power of two.
proof fn lemma_wider_shl(x: u128, s: u128)
    requires
        x < 0x1_0000_0000_0000_0000,
        s < 64,
    ensures
        (x << s) == x * pow2(s as nat),
{
    lemma2_to64();
    vstd::arithmetic::power2::lemma_pow2_strictly_increases(s as nat, 64);
    let one: u64 = 1;
    lemma_u64_shl_is_mul(one, s as u64);
    let p = one << (s as u64);
    assert((p as u128) == (1u128 << s)) by (bit_vector)
        requires
            s < 64,
            p == (1u64 << (s as u64)),
    ;
    assert((x << s) == x * (1u128 << s)) by (bit_vector)
        requires
            x < 0x1_0000_0000_0000_0000,
            s < 64,
    ;
}

impl IntegerTrait for u8 {
    open spec fn bits() -> nat {
        8
    }

    open spec fn as_int(&self) -> int {
        *self as int
    }

    proof fn lemma_range(x: Self) {
        lemma2_to64();
    }

    fn num_bits() -> (r: usize) {
        8
    }

    fn max_value() -> (r: Self) {
        proof {
            lemma2_to64();
        }
        u8::MAX
    }

    fn min_value() -> (r: Self) {
        u8::MIN
    }

    fn zero() -> (r: Self) {
        0
    }

    fn from_u32(x: u32) -> (r: Self) {
        proof {
            lemma2_to64();
            assert(x as u8 == x % 0x100) by (bit_vector);
        }
        x as u8
    }

    fn to_u32(&self) -> (r: u32) {
        proof {
            lemma2_to64();
        }
        *self as u32
    }

    fn to_usize(&self) -> (r: usize) {
        *self as usize
    }

    fn shr(self, n: usize) -> (r: Self) {
        proof {
            lemma_u8_shr_is_div(self, n as u8);
        }
        self >> (n as u8)
    }

    fn shl(self, n: usize) -> (r: Self) {
        let s = n as u8;
        proof {
            lemma2_to64();
            lemma_wide_shl(self as u64, s as u64);
            let x = self;
            let w = (x as u64) << (s as u64);
            assert((x << s) as u64 == w & 0xff) by (bit_vector)
                requires
                    s < 8,
                    w == (x as u64) << (s as u64),
            ;
            assert(w & 0xff == w % 0x100) by (bit_vector);
        }
        self << s
    }
}

impl IntegerTrait for u16 {
    open spec fn bits() -> nat {
        16
    }

    open spec fn as_int(&self) -> int {
        *self as int
    }

    proof fn lemma_range(x: Self) {
        lemma2_to64();
    }

    fn num_bits() -> (r: usize) {
        16
    }

    fn max_value() -> (r: Self) {
        proof {
            lemma2_to64();
        }
        u16::MAX
    }

    fn min_value() -> (r: Self) {
        u16::MIN
    }

    fn zero() -> (r: Self) {
        0
    }

    fn from_u32(x: u32) -> (r: Self) {
        proof {
            lemma2_to64();
            assert(x as u16 == x % 0x10000) by (bit_vector);
        }
        x as u16
    }

    fn to_u32(&self) -> (r: u32) {
        proof {
            lemma2_to64();
        }
        *self as u32
    }

    fn to_usize(&self) -> (r: usize) {
        *self as usize
    }

    fn shr(self, n: usize) -> (r: Self) {
        proof {
            lemma_u16_shr_is_div(self, n as u16);
        }
        self >> (n as u16)
    }

    fn shl(self, n: usize) -> (r: Self) {
        let s = n as u16;
        proof {
            lemma2_to64();
            lemma_wide_shl(self as u64, s as u64);
            let x = self;
            let w = (x as u64) << (s as u64);
            assert((x << s) as u64 == w & 0xffff) by (bit_vector)
                requires
                    s < 16,
                    w == (x as u64) << (s as u64),
            ;
            assert(w & 0xffff == w % 0x10000) by (bit_vector);
        }
        self << s
    }
}

impl IntegerTrait for u32 {
    open spec fn bits() -> nat {
        32
    }

    open spec fn as_int(&self) -> int {
        *self as int
    }

    proof fn lemma_range(x: Self) {
        lemma2_to64();
    }

    fn num_bits() -> (r: usize) {
        32
    }

    fn max_value() -> (r: Self) {
        proof {
            lemma2_to64();
        }
        u32::MAX
    }

    fn min_value() -> (r: Self) {
        u32::MIN
    }

    fn zero() -> (r: Self) {
        0
    }

    fn from_u32(x: u32) -> (r: Self) {
        proof {
            lemma2_to64();
            lemma_small_mod(x as nat, pow2(32));
        }
        x
    }

    fn to_u32(&self) -> (r: u32) {
        proof {
            lemma2_to64();
        }
        *self
    }

    fn to_usize(&self) -> (r: usize) {
        *self as usize
    }

    fn shr(self, n: usize) -> (r: Self) {
        proof {
            lemma_u32_shr_is_div(self, n as u32);
        }
        self >> (n as u32)
    }

    fn shl(self, n: usize) -> (r: Self) {
        let s = n as u32;
        proof {
            lemma2_to64();
            lemma_wide_shl(self as u64, s as u64);
            let x = self;
            let w = (x as u64) << (s as u64);
            assert((x << s) as u64 == w & 0xffff_ffff) by (bit_vector)
                requires
                    s < 32,
                    w == (x as u64) << (s as u64),
            ;
            assert(w & 0xffff_ffff == w % 0x1_0000_0000) by (bit_vector);
        }
        self << s
    }
}

impl IntegerTrait for usize {
    open spec fn bits() -> nat {
        usize::BITS as nat
    }

    open spec fn as_int(&self) -> int {
        *self as int
    }

    proof fn lemma_range(x: Self) {
        lemma2_to64();
    }

    fn num_bits() -> (r: usize) {
        usize::BITS as usize
    }

    fn max_value() -> (r: Self) {
        proof {
            lemma2_to64();
        }
        usize::MAX
    }

    fn min_value() -> (r: Self) {
        usize::MIN
    }

    fn zero() -> (r: Self) {
        0
    }

    fn from_u32(x: u32) -> (r: Self) {
        proof {
            lemma2_to64();
            assert(usize::BITS == 32 || usize::BITS == 64);
            lemma_small_mod(x as nat, pow2(usize::BITS as nat));
        }
        x as usize
    }

    fn to_u32(&self) -> (r: u32) {
        proof {
            lemma2_to64();
            let v = *self;
            let w = v as u64;
            assert(w as u32 == v as u32) by (bit_vector)
                requires
                    w == v,
            ;
            assert(w as u32 == w % 0x1_0000_0000) by (bit_vector);
        }
        *self as u32
    }

    fn to_usize(&self) -> (r: usize) {
        *self
    }

    fn shr(self, n: usize) -> (r: Self) {
        proof {
            lemma_usize_shr_is_div(self, n);
        }
        self >> n
    }

    fn shl(self, n: usize) -> (r: Self) {
        proof {
            lemma2_to64();
            let x = self;
            if usize::BITS == 32 {
                lemma_wide_shl(x as u64, n as u64);
                let w = (x as u64) << (n as u64);
                assert((x << n) as u64 == w & 0xffff_ffff) by (bit_vector)
                    requires
                        usize::BITS == 32,
                        n < 32,
                        w == (x as u64) << (n as u64),
                ;
                assert(w & 0xffff_ffff == w % 0x1_0000_0000) by (bit_vector);
            } else {
                lemma_wider_shl(x as u128, n as u128);
                let w = (x as u128) << (n as u128);
                assert((x << n) as u128 == w & 0xffff_ffff_ffff_ffff) by (bit_vector)
                    requires
                        usize::BITS == 64,
                        n < 64,
                        w == (x as u128) << (n as u128),
                ;
                assert(w & 0xffff_ffff_ffff_ffff == w % 0x1_0000_0000_0000_0000) by (bit_vector);
            }
        }
        self << n
    }
}

} // verus!

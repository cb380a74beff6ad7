use vstd::prelude::*;
use vstd::std_specs::cmp::{PartialOrdIs, PartialOrdSpec};

verus! {

/// Constraint a value to lie between two further values.
///
/// Returns `min_value` if `x` is less than it, `max_value` if `x` is greater than it, and `x`
/// otherwise. The comparisons are those of `T`'s `PartialOrd`.
///
/// # Arguments
/// * `x` - The value to constraint.
/// * `min_value` - The lower bound for the value constraint.
/// * `max_value` - The upper bound for the value constraint.
pub fn clamp<T: PartialOrd>(x: T, min_value: T, max_value: T) -> (r: T)
    ensures
        r == x || r == min_value || r == max_value,
        T::obeys_partial_cmp_spec() ==> r == clamp_result(x, min_value, max_value),
{
    if x < min_value {
        min_value
    } else if x > max_value {
        max_value
    } else {
        x
    }
}

/// The value that `clamp` returns, by `T`'s comparisons.
pub open spec fn clamp_result<T: PartialOrd>(x: T, min_value: T, max_value: T) -> T {
    if x.is_lt(&min_value) {
        min_value
    } else if x.is_gt(&max_value) {
        max_value
    } else {
        x
    }
}

/// `T`'s comparisons order `a` and `b` as the integers `ka` and `kb`.
pub open spec fn ordered_like<T: PartialOrd>(a: T, b: T, ka: int, kb: int) -> bool {
    &&& (a.is_lt(&b) <==> ka < kb)
    &&& (a.is_gt(&b) <==> ka > kb)
}

/// For any type whose comparisons order the value and the bounds as integers (every integer
/// type, and floats other than NaN), with the bounds in order: clamping gives the bound that the
/// value lies beyond, or else the value itself, and clamping the result again changes nothing.
pub proof fn lemma_clamp_ordered<T: PartialOrd>(
    x: T,
    min_value: T,
    max_value: T,
    kx: int,
    kmin: int,
    kmax: int,
)
    requires
        kmin <= kmax,
        ordered_like(x, min_value, kx, kmin),
        ordered_like(x, max_value, kx, kmax),
        ordered_like(min_value, min_value, kmin, kmin),
        ordered_like(min_value, max_value, kmin, kmax),
        ordered_like(max_value, min_value, kmax, kmin),
        ordered_like(max_value, max_value, kmax, kmax),
    ensures
        clamp_result(x, min_value, max_value) == if kx < kmin {
            min_value
        } else if kx > kmax {
            max_value
        } else {
            x
        },
        clamp_result(clamp_result(x, min_value, max_value), min_value, max_value) == clamp_result(
            x,
            min_value,
            max_value,
        ),
{
}

/// The value that `clamp` returns for integers that `PartialOrd` orders as numbers.
pub open spec fn clamped(x: int, min_value: int, max_value: int) -> int {
    if x < min_value {
        min_value
    } else if x > max_value {
        max_value
    } else {
        x
    }
}

/// On `u32`, `clamp` returns the clamped value; for bounds in order it lies between them, it is
/// the value itself where that lies between them, and clamping twice changes nothing.
pub proof fn lemma_clamp_u32(x: u32, min_value: u32, max_value: u32)
    ensures
        (if x.is_lt(&min_value) {
            min_value
        } else if x.is_gt(&max_value) {
            max_value
        } else {
            x
        }) as int == clamped(x as int, min_value as int, max_value as int),
        min_value <= max_value ==> min_value <= clamped(x as int, min_value as int, max_value as int)
            <= max_value,
        min_value <= x <= max_value ==> clamped(x as int, min_value as int, max_value as int) == x,
        min_value <= max_value ==> clamped(
            clamped(x as int, min_value as int, max_value as int),
            min_value as int,
            max_value as int,
        ) == clamped(x as int, min_value as int, max_value as int),
{
}

} // verus!

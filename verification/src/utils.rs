use vstd::prelude::*;
use vstd::arithmetic::power2::{pow2, lemma_pow2_pos};
use vstd::bits::{low_bits_mask, lemma_usize_low_bits_mask_is_mod};
use vstd::arithmetic::div_mod::{lemma_fundamental_div_mod, lemma_mod_multiples_basic};
use vstd::arithmetic::mul::lemma_mul_is_commutative;

verus! {

/// `addr` is a multiple of `align`.
pub open spec fn aligned(addr: int, align: int) -> bool {
    addr % align == 0
}

/// `a` is a power of two that a `usize` can hold.
pub open spec fn is_power_of_two(a: usize) -> bool {
    exists|n: nat| n < usize::BITS && a == pow2(n)
}

/// Whether `addr` is a multiple of `align`.
pub fn is_aligned(addr: usize, align: usize) -> (r: bool)
    requires
        align > 0,
    ensures
        r == aligned(addr as int, align as int),
{
    addr % align == 0
}

proof fn lemma_mask_round_down(x: usize, a: usize)
    requires
        is_power_of_two(a),
    ensures
        (x & !((a - 1) as usize)) % a == 0,
        (x & !((a - 1) as usize)) <= x,
        x - (x & !((a - 1) as usize)) < a,
{
    let n = choose|n: nat| n < usize::BITS && a == pow2(n);
    lemma_pow2_pos(n);
    lemma_usize_low_bits_mask_is_mod(x, n);
    let m = (a - 1) as usize;
    assert(low_bits_mask(n) as usize == m);
    assert(x & !m == x - (x & m) && (x & m) <= x) by (bit_vector);
    let r = x % a;
    assert(x & !m == x - r);
    lemma_fundamental_div_mod(x as int, a as int);
    lemma_mod_multiples_basic(x as int / a as int, a as int);
    assert(x - r == a * (x as int / a as int));
    lemma_mul_is_commutative(a as int, x as int / a as int);
}

/// Rounds `value` up with the mask of `align`: `(value + align - 1) & !(align - 1)`.
/// Where `align` is a power of two this is the least multiple of `align` that is
/// not below `value`.
pub fn align_up(value: usize, align: usize) -> (r: usize)
    requires
        align > 0,
        value + align - 1 <= usize::MAX,
    ensures
        r == ((value + align - 1) as usize) & !((align - 1) as usize),
        is_power_of_two(align) ==> {
            &&& aligned(r as int, align as int)
            &&& value <= r
            &&& r < value + align
        },
{
    let r = (value + (align - 1)) & !(align - 1);
    proof {
        if is_power_of_two(align) {
            lemma_mask_round_down((value + align - 1) as usize, align);
        }
    }
    r
}

} // verus!

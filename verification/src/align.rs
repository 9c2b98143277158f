//! Address alignment helpers.
use vstd::prelude::*;
use vstd::arithmetic::power2::{is_pow2, is_pow2_equiv, pow2, lemma2_to64, lemma2_to64_rest, lemma_pow2_pos, lemma_pow2_strictly_increases, lemma_pow2_adds};
use vstd::arithmetic::div_mod::{lemma_add_mod_noop, lemma_small_mod, lemma_mod_add_multiples_vanish, lemma_fundamental_div_mod, lemma_mod_multiples_basic, lemma_mod_sub_multiples_vanish};
use vstd::arithmetic::power::{pow, lemma_pow_positive};
use vstd::bits::{low_bits_mask, lemma_usize_low_bits_mask_is_mod};

verus! {

/// Gives an exponent `n` with `pow2(n) == x` for a power of two `x`.
pub proof fn lemma_pow2_witness(x: int) -> (n: nat)
    requires
        is_pow2(x),
    ensures
        pow2(n) == x,
{
    is_pow2_equiv(x);
    let n = choose|i: nat| pow(2, i) == x;
    lemma_pow_positive(2, n);
    n
}

/// `pow2(n)` is a power of two.
pub proof fn lemma_pow2_is_pow2(n: nat)
    ensures
        is_pow2(pow2(n) as int),
{
    lemma_pow_positive(2, n);
    is_pow2_equiv(pow2(n) as int);
}

/// The smallest multiple of `align` that is at least `addr`.
pub open spec fn spec_align_up(addr: int, align: int) -> int {
    if addr % align == 0 {
        addr
    } else {
        addr + (align - addr % align)
    }
}

/// A power of two that fits in a machine word has fewer bits than the word.
pub proof fn lemma_pow2_exponent_bound(n: nat)
    requires
        pow2(n) <= usize::MAX,
    ensures
        n < usize::BITS,
{
    lemma2_to64();
    if n >= usize::BITS {
        if n > usize::BITS { lemma_pow2_strictly_increases(usize::BITS as nat, n); }
    }
}

/// A power of two that fits in a machine word divides `isize::MAX + 1`, so a
/// size that is valid for an allocation layout with alignment `align` can be
/// rounded up to that alignment without overflow.
pub proof fn lemma_layout_room(size: int, align: int)
    requires
        is_pow2(align),
        align <= usize::MAX,
        0 <= size <= isize::MAX as int - (isize::MAX as int % align),
    ensures
        size + align <= usize::MAX,
{
    let n = lemma_pow2_witness(align);
    lemma_pow2_exponent_bound(n);
    lemma_pow2_pos(n);
    lemma2_to64();
    lemma2_to64_rest();
    let top = (usize::BITS - 1) as nat;
    assert(isize::MAX as int + 1 == pow2(top)) by {
        if usize::BITS == 32 {
            assert(pow2(31) == 0x8000_0000);
        } else {
            assert(pow2(63) == 0x8000_0000_0000_0000);
        }
    }
    assert(usize::MAX as int + 1 == 2 * pow2(top)) by {
        if usize::BITS == 32 {
            assert(pow2(31) == 0x8000_0000);
        } else {
            assert(pow2(63) == 0x8000_0000_0000_0000);
        }
    }
    if n <= top {
        let k = (top - n) as nat;
        lemma_pow2_adds(n, k);
        lemma_pow2_pos(k);
        lemma_mod_multiples_basic(pow2(k) as int, align);
        assert(pow2(k) * pow2(n) == pow2(top)) by (nonlinear_arith)
            requires pow2(n) * pow2(k) == pow2(n + k), n + k == top;
        lemma_mod_sub_multiples_vanish(-1, align);
        assert((isize::MAX as int) % align == align - 1) by {
            lemma_add_mod_noop(pow2(top) as int, -1, align);
            lemma_small_mod((align - 1) as nat, align as nat);
            lemma_mod_add_multiples_vanish(-1, align);
        }
    }
}

/// Masking with `align - 1` and with its complement computes remainder and
/// rounded-down value for a power-of-two `align`.
pub proof fn lemma_pow2_mask(align: usize)
    requires
        is_pow2(align as int),
    ensures
        align > 0,
        forall|x: usize| #[trigger] (x & ((align - 1) as usize)) == x % align,
        forall|x: usize| #[trigger] (x & !((align - 1) as usize)) == x - x % align,
{
    let n = lemma_pow2_witness(align as int);
    lemma_pow2_pos(n);
    lemma_pow2_exponent_bound(n);
    assert(low_bits_mask(n) == align - 1);
    assert forall|x: usize| #[trigger] (x & ((align - 1) as usize)) == x % align by {
        lemma_usize_low_bits_mask_is_mod(x, n);
    }
    assert forall|x: usize| #[trigger] (x & !((align - 1) as usize)) == x - x % align by {
        let m = (align - 1) as usize;
        assert((x & !m) == x - (x & m)) by (bit_vector);
        lemma_usize_low_bits_mask_is_mod(x, n);
    }
}

/// The rounded-up value is a multiple of `align` no further than `align - 1`
/// above `addr`.
pub proof fn lemma_spec_align_up(addr: int, align: int)
    requires
        align > 0,
    ensures
        spec_align_up(addr, align) % align == 0,
        addr <= spec_align_up(addr, align) < addr + align,
{
    lemma_fundamental_div_mod(addr, align);
    let q = addr / align;
    if addr % align != 0 {
        lemma_mod_multiples_basic(q + 1, align);
        assert((q + 1) * align == q * align + align) by (nonlinear_arith);
        assert(align * q == q * align) by (nonlinear_arith);
    } else {
        lemma_mod_multiples_basic(q, align);
        assert(align * q == q * align) by (nonlinear_arith);
    }
}

proof fn lemma_round_up_via_mask(addr: int, align: int)
    requires
        align > 0,
        addr >= 0,
    ensures
        (addr + align - 1) - (addr + align - 1) % align == spec_align_up(addr, align),
{
    let rem = addr % align;
    lemma_add_mod_noop(addr, align - 1, align);
    lemma_small_mod((align - 1) as nat, align as nat);
    if rem == 0 {
        lemma_small_mod((align - 1) as nat, align as nat);
    } else {
        lemma_mod_add_multiples_vanish(rem - 1, align);
        lemma_small_mod((rem - 1) as nat, align as nat);
    }
}

/// Rounds `addr` up to the next multiple of `align`.
///
/// `align` must be a power of two, and `addr + align - 1` must fit in a
/// machine word.
pub fn align_up(addr: usize, align: usize) -> (r: usize)
    requires
        is_pow2(align as int),
        addr + align - 1 <= usize::MAX,
    ensures
        r == spec_align_up(addr as int, align as int),
        r % align == 0,
        addr <= r < addr + align,
{
    proof {
        lemma_pow2_mask(align);
        let s = (addr + align - 1) as usize;
        assert((s & !((align - 1) as usize)) == s - s % align);
        lemma_round_up_via_mask(addr as int, align as int);
        lemma_fundamental_div_mod(addr as int, align as int);
        let q = addr as int / align as int;
        if addr % align != 0 {
            lemma_mod_multiples_basic(q + 1, align as int);
            assert((q + 1) * align == q * align + align) by (nonlinear_arith);
            assert(align * q == q * align) by (nonlinear_arith);
        } else {
            lemma_mod_multiples_basic(q, align as int);
            assert(align * q == q * align) by (nonlinear_arith);
        }
    }
    (addr + (align - 1)) & !(align - 1)
}

} // verus!

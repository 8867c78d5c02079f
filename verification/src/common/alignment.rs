use vstd::prelude::*;
use vstd::arithmetic::div_mod::{lemma_fundamental_div_mod, lemma_mod_multiples_basic};
use vstd::arithmetic::power2::pow2;
use vstd::bits::{lemma_usize_pow2_no_overflow, lemma_usize_shl_is_mul, lemma_usize_shr_is_div};

verus! {

/// `align` is a power of two: `1 << s` for some `s` below the word size.
pub open spec fn is_power_of_two(align: usize) -> bool {
    exists|s: usize| s < usize::BITS && align == (1usize << s)
}

/// Rounds `offset` up to the next multiple of `align` (a power of two).
pub fn align_up(offset: usize, align: usize) -> (res: usize)
    requires
        is_power_of_two(align),
        offset + align - 1 <= usize::MAX,
    ensures
        res % align == 0,
        offset <= res,
        res < offset + align,
{
    let ghost s = choose|s: usize| s < usize::BITS && align == (1usize << s);
    proof {
        lemma_usize_pow2_no_overflow(s as nat);
        lemma_usize_shl_is_mul(1, s);
        assert(align == pow2(s as nat));
    }
    let sum = offset + (align - 1);
    let res = sum & !(align - 1);
    proof {
        assert(res == ((sum >> s) << s)) by (bit_vector)
            requires
                s < usize::BITS,
                align == (1usize << s),
                res == sum & !((align - 1) as usize),
        ;
        let q = sum >> s;
        lemma_usize_shr_is_div(sum, s);
        assert(q == sum as nat / pow2(s as nat));
        lemma_fundamental_div_mod(sum as int, align as int);
        assert(q * pow2(s as nat) <= sum) by (nonlinear_arith)
            requires
                sum as int == align * (sum as int / align as int) + sum as int % align as int,
                q == sum as int / align as int,
                align == pow2(s as nat),
                align > 0,
        ;
        lemma_usize_shl_is_mul(q, s);
        assert(res == q * align);
        lemma_mod_multiples_basic(q as int, align as int);
        assert(sum - res < align) by (nonlinear_arith)
            requires
                sum as int == align * (sum as int / align as int) + sum as int % align as int,
                q == sum as int / align as int,
                res == q * align,
                0 <= (sum as int % align as int) < align,
        ;
    }
    res
}

} // verus!

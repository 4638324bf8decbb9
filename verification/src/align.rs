//! Alignment arithmetic for pitched rows: rounding a width up to the next
//! multiple of a power-of-two alignment.

use vstd::prelude::*;
use vstd::arithmetic::div_mod::{
    lemma_fundamental_div_mod, lemma_mod_bound, lemma_mod_multiples_basic,
};

verus! {

/// The byte alignment applied to each row of a pitched 2D device allocation.
pub const ALIGNMENT: usize = 512;

/// Whether `a` is a power of two.
pub open spec fn is_power_of_two(a: int) -> bool
    decreases a,
{
    if a <= 0 {
        false
    } else if a == 1 {
        true
    } else {
        a % 2 == 0 && is_power_of_two(a / 2)
    }
}

/// `x` rounded up to the next multiple of `align`; `x` itself where it is
/// already a multiple.
pub open spec fn align_up_spec(x: int, align: int) -> int {
    if x % align == 0 {
        x
    } else {
        x + align - x % align
    }
}

/// Rounding up lands on a multiple of `align`, never below `x`, less than
/// one whole `align` above `x`, and rounding a second time changes nothing.
pub proof fn lemma_align_up_properties(x: int, align: int)
    requires
        x >= 0,
        align > 0,
    ensures
        align_up_spec(x, align) >= x,
        align_up_spec(x, align) < x + align,
        align_up_spec(x, align) % align == 0,
        align_up_spec(align_up_spec(x, align), align) == align_up_spec(x, align),
        x % align == 0 ==> align_up_spec(x, align) == x,
{
    lemma_mod_bound(x, align);
    if x % align != 0 {
        let d = x / align;
        lemma_fundamental_div_mod(x, align);
        assert(align_up_spec(x, align) == (d + 1) * align) by (nonlinear_arith)
            requires
                x == align * d + x % align,
                align_up_spec(x, align) == x + align - x % align,
        ;
        lemma_mod_multiples_basic(d + 1, align);
    }
}

/// Rounds `x` up to the next multiple of `align`, which must be a power of
/// two; `x` comes back unchanged where it is already aligned. The rounded
/// value must fit the machine word: overflow here is a fatal logic error
/// of the caller, excluded rather than reported.
pub fn align_up(x: usize, align: usize) -> (r: usize)
    requires
        is_power_of_two(align as int),
        align_up_spec(x as int, align as int) <= usize::MAX,
    ensures
        r as int == align_up_spec(x as int, align as int),
{
    proof {
        if align as int <= 0 {
            assert(!is_power_of_two(align as int));
        }
        lemma_align_up_properties(x as int, align as int);
    }
    let rem: usize = x % align;
    if rem == 0 {
        x
    } else {
        x + (align - rem)
    }
}

} // verus!

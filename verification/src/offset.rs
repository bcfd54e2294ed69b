//! The offset algebra: where a field starts, given everything that precedes it.
//!
//! Offsets are built from three steps.  [`Zero`] is the start of the struct,
//! [`Align`] rounds an offset up to an alignment, and [`PastField`] skips over
//! a field of a given size.  Every step depends only on the step before it.

use vstd::prelude::*;

verus! {

/// Whether `n` is a power of two.  Alignments always are.
pub open spec fn is_power_of_two(n: nat) -> bool
    decreases n,
{
    n == 1 || (n > 1 && n % 2 == 0 && is_power_of_two(n / 2))
}

/// Tells whether `n` is a power of two.
pub fn power_of_two(n: usize) -> (yes: bool)
    ensures
        yes == is_power_of_two(n as nat),
{
    if n == 0 {
        return false;
    }
    let mut rest: usize = n;
    while rest % 2 == 0
        invariant
            rest > 0,
            is_power_of_two(n as nat) == is_power_of_two(rest as nat),
        decreases rest,
    {
        rest = rest / 2;
    }
    rest == 1
}

/// The smallest multiple of `alignment` that is not below `offset`.
pub open spec fn align_up(offset: nat, alignment: nat) -> nat
    recommends
        alignment > 0,
{
    if offset % alignment == 0 {
        offset
    } else {
        (offset + alignment - offset % alignment) as nat
    }
}

/// `align_up` yields a multiple of the alignment, at or above the offset and
/// less than one alignment away from it.
pub proof fn lemma_align_up_bounds(offset: nat, alignment: nat)
    requires
        alignment > 0,
    ensures
        align_up(offset, alignment) % alignment == 0,
        offset <= align_up(offset, alignment) < offset + alignment,
{
    let r = offset % alignment;
    if r != 0 {
        assert((offset + alignment - r) % (alignment as int) == 0) by (nonlinear_arith)
            requires
                alignment > 0,
                r == offset % alignment,
        ;
    }
}

/// No multiple of the alignment lies between the offset and `align_up`.
pub proof fn lemma_align_up_least(offset: nat, alignment: nat, other: nat)
    requires
        alignment > 0,
        other % alignment == 0,
        offset <= other,
    ensures
        align_up(offset, alignment) <= other,
{
    lemma_align_up_bounds(offset, alignment);
    let up = align_up(offset, alignment);
    if other < up {
        assert(false) by (nonlinear_arith)
            requires
                alignment > 0,
                other % alignment == 0,
                up % alignment == 0,
                other < up,
                up < other + alignment,
        ;
    }
}

/// The textbook formula for rounding up agrees with `align_up`.
pub proof fn lemma_align_up_formula(offset: nat, alignment: nat)
    requires
        alignment > 0,
    ensures
        align_up(offset, alignment) == ((offset + alignment - 1) / (alignment as int)) * alignment,
{
    lemma_align_up_bounds(offset, alignment);
    let up = align_up(offset, alignment);
    assert(up == ((offset + alignment - 1) / (alignment as int)) * alignment) by (nonlinear_arith)
        requires
            alignment > 0,
            up % alignment == 0,
            offset <= up < offset + alignment,
    ;
}

/// Rounds `offset` up to `alignment`.
pub fn align_to(offset: usize, alignment: usize) -> (aligned: usize)
    requires
        alignment > 0,
        align_up(offset as nat, alignment as nat) <= usize::MAX,
    ensures
        aligned == align_up(offset as nat, alignment as nat),
{
    let rest: usize = offset % alignment;
    if rest == 0 {
        offset
    } else {
        offset + (alignment - rest)
    }
}

/// Rounds `offset` up to `alignment`.  There is no result where the
/// alignment is zero or the rounded offset does not fit.
pub fn checked_align_to(offset: usize, alignment: usize) -> (aligned: Option<usize>)
    ensures
        aligned == if alignment > 0 && align_up(offset as nat, alignment as nat) <= usize::MAX {
            Some(align_up(offset as nat, alignment as nat) as usize)
        } else {
            None
        },
{
    if alignment == 0 {
        return None;
    }
    let rest: usize = offset % alignment;
    if rest == 0 {
        Some(offset)
    } else {
        let gap: usize = alignment - rest;
        if gap > usize::MAX - offset {
            None
        } else {
            Some(offset + gap)
        }
    }
}

/// Rounds `offset` up to the natural alignment of `T`.
pub fn align<T>(offset: usize) -> (aligned: usize)
    requires
        align_up(offset as nat, vstd::layout::align_of::<T>()) <= usize::MAX,
    ensures
        aligned == align_up(offset as nat, vstd::layout::align_of::<T>()),
{
    broadcast use vstd::layout::align_nonzero;

    let alignment: usize = core::mem::align_of::<T>();
    align_to(offset, alignment)
}

/// A product with `step` is a multiple of `step`, and every multiple of
/// `step` is such a product.
proof fn lemma_multiple(value: int, step: int, factor: int)
    requires
        step > 0,
    ensures
        value == factor * step ==> value % step == 0,
        value % step == 0 ==> value == (value / step) * step,
{
    if value == factor * step {
        vstd::arithmetic::div_mod::lemma_mod_multiples_basic(factor, step);
    }
    if value % step == 0 {
        vstd::arithmetic::div_mod::lemma_fundamental_div_mod(value, step);
        assert(step * (value / step) == (value / step) * step) by (nonlinear_arith);
    }
}

/// Of two powers of two, the smaller divides the larger.
pub proof fn lemma_power_of_two_divides(small: nat, large: nat)
    requires
        is_power_of_two(small),
        is_power_of_two(large),
        small <= large,
    ensures
        large % small == 0,
    decreases small,
{
    if small > 1 {
        let half_small = (small / 2) as int;
        let half_large = (large / 2) as int;
        lemma_power_of_two_divides(small / 2, large / 2);
        lemma_multiple(half_large, half_small, 0);
        let factor = half_large / half_small;
        assert(large as int == factor * (small as int)) by (nonlinear_arith)
            requires
                small as int == 2 * half_small,
                large as int == 2 * half_large,
                half_large == factor * half_small,
        ;
        lemma_multiple(large as int, small as int, factor);
    }
}

/// A multiple of a multiple is a multiple, and so is a sum of multiples.
pub proof fn lemma_multiples(a: nat, b: nat, step: nat, small: nat)
    requires
        small > 0,
        step > 0,
        step % small == 0,
        a % step == 0,
        b % small == 0,
    ensures
        a % small == 0,
        (a + b) % small == 0,
{
    lemma_multiple(a as int, step as int, 0);
    lemma_multiple(step as int, small as int, 0);
    lemma_multiple(b as int, small as int, 0);
    let in_a = (a as int) / (step as int);
    let in_step = (step as int) / (small as int);
    let in_b = (b as int) / (small as int);
    assert(a as int == (in_a * in_step) * (small as int)) by (nonlinear_arith)
        requires
            a as int == in_a * (step as int),
            step as int == in_step * (small as int),
    ;
    lemma_multiple(a as int, small as int, in_a * in_step);
    assert((a + b) as int == (in_a * in_step + in_b) * (small as int)) by (nonlinear_arith)
        requires
            a as int == (in_a * in_step) * (small as int),
            b as int == in_b * (small as int),
    ;
    lemma_multiple((a + b) as int, small as int, in_a * in_step + in_b);
}

/// An offset that is fixed before any value exists.
pub trait Offset {
    /// Whether every alignment in the expression is usable.
    spec fn valid(&self) -> bool;

    /// The offset in bytes.
    spec fn offset(&self) -> nat;

    /// The offset in bytes, where the expression is valid and the offset
    /// fits.
    fn value(&self) -> (value: Option<usize>)
        ensures
            value == if self.valid() && self.offset() <= usize::MAX {
                Some(self.offset() as usize)
            } else {
                None
            },
    ;
}

/// The start of a struct.
#[derive(Debug, Clone, Copy, PartialEq, Eq, Structural)]
pub struct Zero;

/// The offset `base`, rounded up to `alignment`.
#[derive(Debug, PartialEq, Eq)]
pub struct Align<B> {
    pub base: B,
    pub alignment: usize,
}

/// The offset `base`, moved past a field of `size` bytes.
#[derive(Debug, PartialEq, Eq)]
pub struct PastField<B> {
    pub base: B,
    pub size: usize,
}

impl Offset for Zero {
    open spec fn valid(&self) -> bool {
        true
    }

    open spec fn offset(&self) -> nat {
        0
    }

    fn value(&self) -> (value: Option<usize>) {
        Some(0)
    }
}

impl<B: Offset> Offset for Align<B> {
    open spec fn valid(&self) -> bool {
        self.base.valid() && self.alignment > 0
    }

    open spec fn offset(&self) -> nat {
        align_up(self.base.offset(), self.alignment as nat)
    }

    fn value(&self) -> (value: Option<usize>) {
        proof {
            if self.alignment > 0 {
                lemma_align_up_bounds(self.base.offset(), self.alignment as nat);
            }
        }
        match self.base.value() {
            Some(base) => checked_align_to(base, self.alignment),
            None => None,
        }
    }
}

impl<B: Offset> Offset for PastField<B> {
    open spec fn valid(&self) -> bool {
        self.base.valid()
    }

    open spec fn offset(&self) -> nat {
        self.base.offset() + self.size as nat
    }

    fn value(&self) -> (value: Option<usize>) {
        match self.base.value() {
            Some(base) => base.checked_add(self.size),
            None => None,
        }
    }
}

} // verus!

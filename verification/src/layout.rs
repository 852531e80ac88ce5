//! Layout descriptors: a size/alignment pair, alignment arithmetic, and
//! the fixed field-placement computation for aggregates with a defined
//! (not compiler-chosen) layout.
//!
//! A layout is non-degenerate when its alignment is a power of two and
//! its size, rounded up to that alignment, still fits in the address
//! space. A degenerate layout request is a fatal condition: it is
//! reported as an error value at the boundary where the layout is
//! formed, and no operation of the engine accepts a degenerate layout.

use vstd::arithmetic::div_mod::{
    lemma_fundamental_div_mod, lemma_mod_division_less_than_divisor, lemma_mod_multiples_basic,
};
use vstd::prelude::*;

verus! {

/// Size and alignment of a memory region, in bytes.
#[derive(Clone, Copy, PartialEq, Eq, Structural, Debug)]
pub struct LayoutDesc {
    /// Size in bytes.
    pub size: usize,
    /// Alignment in bytes.
    pub align: usize,
}

/// A degenerate layout request. Layout failures belong to the fatal
/// failure class: they are never retried and never locally recovered.
#[derive(Clone, Copy, PartialEq, Eq, Structural, Debug)]
pub enum LayoutError {
    /// The alignment is zero or not a power of two.
    BadAlign,
    /// A size computation exceeded the address space.
    Oversize,
}

/// Whether `a` is a (positive) power of two.
pub open spec fn is_power_of_two(a: int) -> bool
    decreases a,
{
    if a <= 0 {
        false
    } else if a == 1 {
        true
    } else {
        a % 2 == 0 && is_power_of_two(a / 2)
    }
}

/// The smallest multiple of `a` that is at least `n`.
pub open spec fn align_up_spec(n: int, a: int) -> int
    recommends
        a >= 1,
        n >= 0,
{
    if n % a == 0 {
        n
    } else {
        n + (a - n % a)
    }
}

/// `align_up_spec` yields a multiple of the alignment, no smaller than
/// `n` and less than `n + a`.
pub proof fn lemma_align_up(n: int, a: int)
    requires
        a >= 1,
        n >= 0,
    ensures
        align_up_spec(n, a) % a == 0,
        n <= align_up_spec(n, a) < n + a,
{
    let r = n % a;
    lemma_mod_division_less_than_divisor(n, a);
    if r != 0 {
        lemma_fundamental_div_mod(n, a);
        assert(n + (a - r) == a * (n / a + 1)) by {
            assert(n == a * (n / a) + r);
            assert(a * (n / a) + a == a * (n / a + 1)) by (nonlinear_arith);
        }
        lemma_mod_multiples_basic(n / a + 1, a);
    }
}

/// Checks whether `a` is a power of two.
pub fn is_power_of_two_exec(a: usize) -> (r: bool)
    ensures
        r == is_power_of_two(a as int),
{
    if a == 0 {
        return false;
    }
    let mut x: usize = a;
    while x > 1
        invariant
            x >= 1,
            is_power_of_two(a as int) == is_power_of_two(x as int),
        decreases x,
    {
        if x % 2 == 1 {
            return false;
        }
        x = x / 2;
    }
    true
}

/// Rounds `n` up to the next multiple of `align`, or reports that the
/// rounded value does not fit in the address space.
pub fn align_up(n: usize, align: usize) -> (r: Result<usize, LayoutError>)
    requires
        align >= 1,
    ensures
        r matches Ok(v) ==> v == align_up_spec(n as int, align as int),
        r is Err <==> align_up_spec(n as int, align as int) > usize::MAX,
        r matches Err(e) ==> e == LayoutError::Oversize,
{
    proof {
        lemma_align_up(n as int, align as int);
    }
    let rem = n % align;
    if rem == 0 {
        Ok(n)
    } else {
        match n.checked_add(align - rem) {
            Some(v) => Ok(v),
            None => Err(LayoutError::Oversize),
        }
    }
}

impl LayoutDesc {
    /// A non-degenerate layout: power-of-two alignment, and a size that
    /// still fits in the address space once rounded up to the alignment.
    pub open spec fn valid(self) -> bool {
        is_power_of_two(self.align as int) && align_up_spec(
            self.size as int,
            self.align as int,
        ) <= usize::MAX
    }

    /// Forms a layout from a size and an alignment, rejecting the
    /// degenerate cases.
    pub fn from_size_align(size: usize, align: usize) -> (r: Result<LayoutDesc, LayoutError>)
        ensures
            r matches Ok(l) ==> l == (LayoutDesc { size, align }) && l.valid(),
            r is Ok <==> (LayoutDesc { size, align }).valid(),
            r matches Err(e) ==> (e == LayoutError::BadAlign <==> !is_power_of_two(align as int)),
    {
        if !is_power_of_two_exec(align) {
            return Err(LayoutError::BadAlign);
        }
        match align_up(size, align) {
            Ok(_) => Ok(LayoutDesc { size, align }),
            Err(_) => Err(LayoutError::Oversize),
        }
    }

    /// The layout of `n` contiguous values of this layout, one stride
    /// apart; the stride is the size rounded up to the alignment.
    pub fn repeat(self, n: usize) -> (r: Result<LayoutDesc, LayoutError>)
        requires
            self.valid(),
        ensures
            r matches Ok(l) ==> l.align == self.align && l.size == align_up_spec(
                self.size as int,
                self.align as int,
            ) * n && l.valid(),
            r is Ok <==> align_up_spec(self.size as int, self.align as int) * n <= usize::MAX,
            r matches Err(e) ==> e == LayoutError::Oversize,
    {
        proof {
            lemma_pow2_positive(self.align as int);
            lemma_align_up(self.size as int, self.align as int);
        }
        let stride = match align_up(self.size, self.align) {
            Ok(v) => v,
            Err(e) => {
                return Err(e);
            }
        };
        match stride.checked_mul(n) {
            Some(total) => {
                proof {
                    let a = self.align as int;
                    let st = align_up_spec(self.size as int, a);
                    lemma_fundamental_div_mod(st, a);
                    assert(st == a * (st / a));
                    assert(st * (n as int) == ((st / a) * (n as int)) * a) by (nonlinear_arith)
                        requires
                            st == a * (st / a),
                    ;
                    lemma_mod_multiples_basic((st / a) * (n as int), a);
                    assert(total as int % a == 0);
                    assert(align_up_spec(total as int, a) == total as int);
                }
                Ok(LayoutDesc { size: total, align: self.align })
            }
            None => Err(LayoutError::Oversize),
        }
    }
}

/// This notion of a power of two agrees with the standard library
/// model's.
pub proof fn lemma_pow2_agrees(a: int)
    ensures
        is_power_of_two(a) == vstd::arithmetic::power2::is_pow2(a),
    decreases a,
{
    reveal(vstd::arithmetic::power2::is_pow2);
    if a > 1 {
        lemma_pow2_agrees(a / 2);
    }
}

/// A power of two is positive.
pub proof fn lemma_pow2_positive(a: int)
    requires
        is_power_of_two(a),
    ensures
        a >= 1,
{
}

} // verus!

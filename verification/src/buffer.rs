//! Sizing of aligned I/O buffers: an allocation for unbuffered reads is
//! rounded up to a whole number of alignment units.

use vstd::prelude::*;

verus! {

/// The alignment unbuffered reads use by default: one page.
pub const DEFAULT_ALIGNMENT: usize = 4096;

/// The smallest multiple of `alignment` that holds `size` bytes.
pub open spec fn round_up(size: int, alignment: int) -> int
    recommends
        alignment > 0,
{
    ((size + alignment - 1) / alignment) * alignment
}

/// What rounding up gives: a multiple of the alignment, at least the size
/// and less than one unit more, namely the whole units of the size plus one
/// for a remainder.
pub proof fn lemma_round_up(size: int, alignment: int)
    requires
        size >= 0,
        alignment > 0,
    ensures
        round_up(size, alignment) % alignment == 0,
        size <= round_up(size, alignment) < size + alignment,
        round_up(size, alignment) == (size / alignment + (if size % alignment != 0 { 1int } else { 0int })) * alignment,
{
    let a = alignment;
    let s = size;
    let q = (s + a - 1) / a;
    assert(q * a <= s + a - 1 && s + a - 1 < q * a + a) by (nonlinear_arith)
        requires
            a > 0,
            q == (s + a - 1) / a,
    ;
    assert((q * a) % a == 0) by (nonlinear_arith)
        requires
            a > 0,
    ;
    let units = s / a + (if s % a != 0 { 1int } else { 0int });
    assert(units == q) by (nonlinear_arith)
        requires
            a > 0,
            s >= 0,
            q == (s + a - 1) / a,
            units == s / a + (if s % a != 0 { 1int } else { 0int }),
    ;
}

/// The bytes to allocate for a `size`-byte buffer aligned to `alignment`:
/// [`round_up`] of the two, or `None` where that does not fit in `usize`.
pub fn aligned_capacity(size: usize, alignment: usize) -> (r: Option<usize>)
    requires
        alignment > 0,
    ensures
        match r {
            Some(c) => c == round_up(size as int, alignment as int),
            None => round_up(size as int, alignment as int) > usize::MAX,
        },
        round_up(size as int, alignment as int) % (alignment as int) == 0,
        size <= round_up(size as int, alignment as int) < size + alignment,
{
    let ghost a = alignment as int;
    let ghost s = size as int;
    let ghost q = (s + a - 1) / a;
    proof {
        assert(round_up(s, a) == q * a);
        assert(q * a <= s + a - 1 && s + a - 1 < q * a + a) by (nonlinear_arith)
            requires
                a > 0,
                q == (s + a - 1) / a,
        ;
        assert((q * a) % a == 0) by (nonlinear_arith)
            requires
                a > 0,
        ;
    }
    let mut units = size / alignment;
    assert(size % alignment != 0 ==> units < usize::MAX) by (nonlinear_arith)
        requires
            alignment > 0,
            units == size / alignment,
    ;
    if size % alignment != 0 {
        units = units + 1;
    }
    assert(units == q) by (nonlinear_arith)
        requires
            a > 0,
            s >= 0,
            q == (s + a - 1) / a,
            units == s / a + (if s % a != 0 { 1int } else { 0int }),
    ;
    units.checked_mul(alignment)
}

} // verus!

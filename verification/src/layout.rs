//! Sizes, alignments and the placement of the header in front of user data.

use vstd::arithmetic::div_mod::*;
use vstd::arithmetic::mul::*;
use vstd::arithmetic::power::*;
use vstd::arithmetic::power2::*;
use vstd::layout::*;
use vstd::prelude::*;

verus! {

/// The smallest multiple of `m` that is not below `n`.
pub open spec fn round_up(n: int, m: int) -> int {
    ((n + m - 1) / m) * m
}

/// Whether a block of `size` bytes aligned to `align` may be asked of an
/// allocator: the alignment is a power of two and the size, rounded up to a
/// multiple of it, does not exceed `isize::MAX`.
pub open spec fn fits(size: int, align: int) -> bool {
    is_pow2(align) && round_up(size, align) <= isize::MAX
}

/// Bytes in a machine word, which is also the size of a pointer.
pub open spec fn word_len() -> int {
    size_of::<usize>() as int
}

/// Bytes taken by a header: one word for the size, one for the alignment.
pub open spec fn header_span() -> int {
    2 * word_len()
}

/// The alignment of a header.
pub open spec fn header_alignment() -> int {
    align_of::<usize>() as int
}

/// The largest natural alignment of any C object.
pub open spec fn natural_alignment() -> int {
    align_of::<u128>() as int
}

/// How far into a block of the given alignment the user data starts: just far
/// enough for the header to fit in front of it.
pub open spec fn data_start(align: int) -> int {
    round_up(header_span(), align)
}

/// `usize::is_power_of_two`: true exactly for the powers of two.
pub assume_specification[ usize::is_power_of_two ](x: usize) -> (r: bool)
    ensures
        r == is_pow2(x as int),
;

/// `usize::next_multiple_of`: the smallest multiple of `rhs` that is not below
/// `lhs`. It panics on a zero `rhs` and where that multiple is no `usize`.
pub assume_specification[ usize::next_multiple_of ](lhs: usize, rhs: usize) -> (r: usize)
    requires
        rhs != 0,
        round_up(lhs as int, rhs as int) <= usize::MAX,
    ensures
        r == round_up(lhs as int, rhs as int),
;

/// `core::alloc::Layout::from_size_align`, of which only the verdict is kept:
/// it accepts exactly the sizes and alignments that [`fits`] describes.
#[verifier::external_body]
pub(crate) fn layout_accepted(size: usize, align: usize) -> (ok: bool)
    ensures
        ok == fits(size as int, align as int),
{
    core::alloc::Layout::from_size_align(size, align).is_ok()
}

/// Size and alignment of a block, as handed to the allocator and as kept in the
/// header of the block.
#[derive(Clone, Copy, Debug, PartialEq, Eq, Structural)]
pub struct Layout {
    pub size: usize,
    pub align: usize,
}

impl Layout {
    /// The allocator takes this layout, and user data follows the header in a
    /// block of it.
    pub open spec fn carries_data(self) -> bool {
        &&& fits(self.size as int, self.align as int)
        &&& header_alignment() <= self.align
        &&& data_start(self.align as int) < self.size
    }

    /// Bytes left for the user in a block of this layout.
    pub open spec fn user_len(self) -> int {
        self.size - data_start(self.align as int)
    }
}

/// The larger of two numbers.
pub open spec fn larger(a: int, b: int) -> int {
    if a >= b {
        a
    } else {
        b
    }
}

/// The smaller of two numbers.
pub open spec fn smaller(a: int, b: int) -> int {
    if a <= b {
        a
    } else {
        b
    }
}

/// The alignment of the block that serves a request: that of the request, but
/// never below the header's.
pub open spec fn block_alignment(alignment: int) -> int {
    larger(alignment, header_alignment())
}

/// The size of the block that serves a request.
pub open spec fn block_size(size: int, alignment: int) -> int {
    data_start(block_alignment(alignment)) + size
}

/// Whether a request for `size` bytes at `alignment` can be put to the allocator
/// at all.
pub open spec fn servable(size: int, alignment: int) -> bool {
    size > 0 && fits(block_size(size, alignment), block_alignment(alignment))
}

/// The layout of the block that serves a servable request.
pub open spec fn block_layout(size: int, alignment: int) -> Layout {
    Layout {
        size: block_size(size, alignment) as usize,
        align: block_alignment(alignment) as usize,
    }
}

/// `round_up` yields a multiple of `m`, not below `n`, and no smaller one exists.
pub proof fn lemma_round_up(n: int, m: int)
    requires
        0 <= n,
        0 < m,
    ensures
        n <= round_up(n, m) < n + m,
        round_up(n, m) % m == 0,
        forall|k: int| #![trigger k % m] n <= k && k % m == 0 ==> round_up(n, m) <= k,
{
    let q = (n + m - 1) / m;
    lemma_fundamental_div_mod(n + m - 1, m);
    lemma_mod_bound(n + m - 1, m);
    lemma_mul_is_commutative(m, q);
    lemma_mod_multiples_basic(q, m);
    assert forall|k: int| #![trigger k % m] n <= k && k % m == 0 implies round_up(n, m) <= k by {
        lemma_fundamental_div_mod(k, m);
        let j = k / m;
        if q * m > k {
            assert(q >= j + 1) by (nonlinear_arith)
                requires
                    q * m > k,
                    k == m * j,
                    m > 0,
            ;
            assert(q * m >= k + m) by (nonlinear_arith)
                requires
                    q >= j + 1,
                    k == m * j,
                    m > 0,
            ;
        }
    }
}

/// Of two powers of two the smaller divides the larger.
pub proof fn lemma_pow2_divides(a: int, b: int)
    requires
        is_pow2(a),
        is_pow2(b),
        a <= b,
    ensures
        0 < a,
        b % a == 0,
{
    is_pow2_equiv(a);
    is_pow2_equiv(b);
    let i = choose|i: nat| pow(2, i) == a;
    let j = choose|j: nat| pow(2, j) == b;
    lemma_pow_positive(2, i);
    if j < i {
        lemma_pow_strictly_increases(2, j, i);
    }
    lemma_pow_adds(2, i, (j - i) as nat);
    lemma_mul_is_commutative(pow(2, i), pow(2, (j - i) as nat));
    lemma_mod_multiples_basic(pow(2, (j - i) as nat), a);
}

/// What is divisible by a multiple of `m` is divisible by `m`.
pub proof fn lemma_divides_transitive(x: int, y: int, m: int)
    requires
        0 < m,
        0 < y,
        x % y == 0,
        y % m == 0,
    ensures
        x % m == 0,
{
    lemma_fundamental_div_mod(x, y);
    lemma_fundamental_div_mod(y, m);
    let q = x / y;
    let r = y / m;
    assert(x == (q * r) * m) by (nonlinear_arith)
        requires
            x == y * q,
            y == m * r,
    ;
    lemma_mod_multiples_basic(q * r, m);
}

/// Word and header sizes are positive, small and aligned.
pub proof fn lemma_header_shape()
    ensures
        word_len() == 4 || word_len() == 8,
        header_span() % header_alignment() == 0,
        word_len() % header_alignment() == 0,
        0 < header_alignment() <= word_len(),
        is_pow2(header_alignment()),
        is_pow2(word_len()),
        0 < natural_alignment() <= 16,
        is_pow2(natural_alignment()),
{
    broadcast use {layout_of_primitives, align_properties, align_nonzero};

    usize_size_pow2();
    let w = word_len();
    let a = header_alignment();
    lemma_fundamental_div_mod(w, a);
    let q = w / a;
    assert(2 * w == (2 * q) * a) by (nonlinear_arith)
        requires
            w == a * q,
    ;
    lemma_mod_multiples_basic(2 * q, a);
    if a > w {
        lemma_small_mod(w as nat, a as nat);
    }
    if natural_alignment() > 16 {
        lemma_small_mod(16, natural_alignment() as nat);
    }
}

/// User data starts behind the header, at a multiple of the alignment, and less
/// than one alignment step later than needed.
pub proof fn lemma_data_start(align: int)
    requires
        0 < align <= usize::MAX,
    ensures
        header_span() <= data_start(align) < header_span() + align,
        data_start(align) % align == 0,
        data_start(align) <= usize::MAX,
{
    lemma_header_shape();
    lemma_round_up(header_span(), align);
    if header_span() <= align {
        lemma_fundamental_div_mod_converse(
            header_span() + align - 1,
            align,
            1,
            header_span() - 1,
        );
    }
}

/// A servable request is for a block with room for the header and for exactly
/// `size` bytes of data, and no larger than an allocator can give.
pub proof fn lemma_servable(size: int, alignment: int)
    requires
        servable(size, alignment),
        alignment <= usize::MAX,
    ensures
        block_size(size, alignment) <= isize::MAX,
        block_layout(size, alignment).size == block_size(size, alignment),
        block_layout(size, alignment).align == block_alignment(alignment),
        block_layout(size, alignment).carries_data(),
        block_layout(size, alignment).user_len() == size,
{
    lemma_header_shape();
    let align = block_alignment(alignment);
    lemma_data_start(align);
    lemma_round_up(block_size(size, alignment), align);
}

/// The size of a header.
pub fn header_len() -> (n: usize)
    ensures
        n == header_span(),
        n == 2 * size_of::<usize>(),
{
    proof {
        lemma_header_shape();
    }
    2 * core::mem::size_of::<usize>()
}

/// The alignment of a header.
pub fn header_align() -> (n: usize)
    ensures
        n == header_alignment(),
        n == align_of::<usize>(),
{
    core::mem::align_of::<usize>()
}

/// The alignment that `malloc` and `calloc` give: the largest natural one.
pub fn default_align() -> (n: usize)
    ensures
        n == natural_alignment(),
        n == align_of::<u128>(),
{
    core::mem::align_of::<u128>()
}

/// The size of a pointer.
pub fn pointer_len() -> (n: usize)
    ensures
        n == word_len(),
        n == size_of::<usize>(),
{
    core::mem::size_of::<usize>()
}

/// How far into a block of alignment `align` the user data starts.
pub fn data_offset(align: usize) -> (n: usize)
    requires
        align != 0,
    ensures
        n == data_start(align as int),
        n as int % align as int == 0,
        2 * size_of::<usize>() <= n < 2 * size_of::<usize>() + align,
{
    proof {
        lemma_data_start(align as int);
    }
    header_len().next_multiple_of(align)
}

} // verus!

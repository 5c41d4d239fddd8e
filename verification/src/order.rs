//! Orders: the power-of-two size classes of the buddy allocator.
//!
//! An area of order `k` spans exactly `2^k` pages. This module converts
//! between orders and page counts and proves the arithmetic facts about
//! powers of two that the allocator relies on.

use vstd::prelude::*;
use vstd::arithmetic::power2::*;
use vstd::bits::*;
use vstd::arithmetic::div_mod::*;

verus! {

/// An order is usable when `2^order` fits in a machine word.
pub open spec fn valid_order(order: int) -> bool {
    0 <= order < usize::BITS
}

/// The number of pages in an area of the given order.
pub open spec fn pages_of(order: int) -> nat {
    pow2(order as nat)
}

/// The order needed to hold `num_pages` pages: the least `m` with
/// `2^m >= num_pages`.
pub open spec fn order_of_pages(num_pages: nat) -> nat
    decreases num_pages,
{
    if num_pages <= 1 {
        0
    } else {
        1 + order_of_pages((num_pages + 1) / 2)
    }
}

/// Tells whether `order` is usable on this machine.
pub fn order_is_valid(order: i32) -> (ok: bool)
    ensures
        ok == valid_order(order as int),
{
    0 <= order && (order as u32) < usize::BITS
}

/// The number of pages in an area of order `order`, that is `1 << order`.
pub fn pages_in_order(order: i32) -> (n: usize)
    requires
        valid_order(order as int),
    ensures
        n == pages_of(order as int),
        n > 0,
{
    proof {
        lemma_usize_pow2_no_overflow(order as nat);
        lemma_usize_shl_is_mul(1, order as usize);
    }
    1usize << (order as usize)
}

/// The least order whose areas hold `num_pages` pages (`ceil(log2(num_pages))`).
///
/// The result can be `usize::BITS`, one more than any valid order, when
/// `num_pages` exceeds the largest power of two that fits in a machine word.
pub fn order_for_pages(num_pages: usize) -> (order: i32)
    ensures
        order == order_of_pages(num_pages as nat),
        0 <= order <= usize::BITS,
{
    let mut order: i32 = 0;
    let mut size: usize = 1;
    proof {
        lemma2_to64();
        lemma_order_of_pages_is_least(num_pages as nat);
    }
    while size < num_pages
        invariant
            0 <= order < usize::BITS,
            size == pages_of(order as int),
            order <= order_of_pages(num_pages as nat),
        decreases usize::BITS - order,
    {
        proof {
            lemma_order_of_pages_is_least(num_pages as nat);
            lemma_pow2_unfold((order + 1) as nat);
            if order_of_pages(num_pages as nat) <= order {
                lemma_pow2_increases(order_of_pages(num_pages as nat), order as nat);
            }
        }
        if order as u32 == usize::BITS - 1 {
            proof {
                lemma_usize_pow2_no_overflow(order as nat);
                lemma_pow2_bits_exceeds_max();
                lemma_order_of_pages_lower_bound(num_pages as nat, usize::BITS as nat);
            }
            return order + 1;
        }
        proof {
            lemma_usize_pow2_no_overflow((order + 1) as nat);
        }
        size = size * 2;
        order = order + 1;
    }
    proof {
        lemma_order_of_pages_lower_bound(num_pages as nat, order as nat);
    }
    order
}

/// `order_of_pages(n)` is large enough for `n` pages, and no smaller order is.
pub proof fn lemma_order_of_pages_is_least(num_pages: nat)
    ensures
        num_pages <= pages_of(order_of_pages(num_pages) as int),
        forall|m: nat| m < order_of_pages(num_pages) ==> #[trigger] pages_of(m as int) < num_pages,
    decreases num_pages,
{
    lemma2_to64();
    if num_pages <= 1 {
    } else {
        let half = (num_pages + 1) / 2;
        lemma_order_of_pages_is_least(half);
        let k = order_of_pages(half);
        lemma_pow2_unfold(k + 1);
        assert forall|m: nat| m < k + 1 implies #[trigger] pages_of(m as int) < num_pages by {
            if m == 0 {
            } else {
                let j = (m - 1) as nat;
                assert(pages_of(j as int) < half);
                lemma_pow2_unfold(m);
            }
        }
    }
}

/// Any order that holds `num_pages` pages is at least `order_of_pages(num_pages)`.
pub proof fn lemma_order_of_pages_lower_bound(num_pages: nat, m: nat)
    requires
        num_pages <= pages_of(m as int),
    ensures
        order_of_pages(num_pages) <= m,
{
    lemma_order_of_pages_is_least(num_pages);
    if m < order_of_pages(num_pages) {
    }
}

/// `2^usize::BITS` is beyond the largest machine word.
pub proof fn lemma_pow2_bits_exceeds_max()
    ensures
        pages_of(usize::BITS as int) > usize::MAX,
{
    lemma2_to64();
    lemma2_to64_rest();
}

/// Powers of two grow with the exponent.
pub proof fn lemma_pow2_increases(e1: nat, e2: nat)
    requires
        e1 <= e2,
    ensures
        pow2(e1) <= pow2(e2),
{
    if e1 < e2 {
        lemma_pow2_strictly_increases(e1, e2);
    }
}

/// A block aligned to its size has both halves aligned to half its size.
pub proof fn lemma_halves_aligned(base: int, order: nat)
    requires
        order > 0,
        base % (pow2(order) as int) == 0,
    ensures
        pow2(order) == 2 * pow2((order - 1) as nat),
        base % (pow2((order - 1) as nat) as int) == 0,
        (base + pow2((order - 1) as nat)) % (pow2((order - 1) as nat) as int) == 0,
{
    let h = pow2((order - 1) as nat) as int;
    lemma_pow2_pos((order - 1) as nat);
    lemma_pow2_unfold(order);
    lemma_fundamental_div_mod(base, 2 * h);
    let q = base / (2 * h);
    assert(base == (2 * q) * h) by (nonlinear_arith)
        requires
            base == (2 * h) * q + 0,
    ;
    assert(base + h == (2 * q + 1) * h) by (nonlinear_arith)
        requires
            base == (2 * q) * h,
    ;
    lemma_mod_multiples_basic(2 * q, h);
    lemma_mod_multiples_basic(2 * q + 1, h);
}

/// A block that starts at a machine word and is aligned to its size ends no
/// later than one past the largest machine word.
pub proof fn lemma_aligned_block_fits(base: usize, order: nat)
    requires
        order < usize::BITS,
        base as int % (pow2(order) as int) == 0,
    ensures
        base + pow2(order) <= usize::MAX + 1,
{
    let p = pow2(order) as int;
    let rest = (usize::BITS - order) as nat;
    let q = pow2(rest) as int;
    lemma_pow2_pos(order);
    lemma_pow2_adds(order, rest);
    lemma2_to64();
    lemma2_to64_rest();
    lemma_fundamental_div_mod(base as int, p);
    let n = base as int / p;
    assert(p * (n + 1) <= p * q) by (nonlinear_arith)
        requires
            p * n < p * q,
            p > 0,
    ;
    assert(p * (n + 1) == p * n + p) by (nonlinear_arith);
}

/// Two multiples of `2^k` less than `2^k` apart are the same number.
pub proof fn lemma_close_multiples_are_equal(base: int, page: int, k: nat)
    requires
        base % (pow2(k) as int) == 0,
        page % (pow2(k) as int) == 0,
        base <= page < base + pow2(k),
    ensures
        page == base,
{
    let m = pow2(k) as int;
    lemma_pow2_pos(k);
    lemma_fundamental_div_mod(base, m);
    lemma_fundamental_div_mod(page, m);
    let a = base / m;
    let b = page / m;
    assert(a == b) by (nonlinear_arith)
        requires
            m > 0,
            m * a <= m * b < m * a + m,
    ;
}

/// A block of order `k` that is aligned to its size and starts inside an
/// aligned block of order `order >= k` ends inside it too.
pub proof fn lemma_aligned_block_ends_inside(base: int, order: nat, page: int, k: nat)
    requires
        k <= order,
        base % (pow2(order) as int) == 0,
        page % (pow2(k) as int) == 0,
        base <= page < base + pow2(order),
    ensures
        page + pow2(k) <= base + pow2(order),
{
    let m = pow2(k) as int;
    let r = pow2((order - k) as nat) as int;
    lemma_pow2_pos(k);
    lemma_pow2_adds(k, (order - k) as nat);
    lemma_fundamental_div_mod(base, m * r);
    lemma_fundamental_div_mod(page, m);
    let a = base / (m * r);
    let b = page / m;
    assert(m * (b + 1) <= m * (a * r + r)) by (nonlinear_arith)
        requires
            m > 0,
            (m * r) * a <= m * b < (m * r) * a + m * r,
    ;
    assert(m * (b + 1) == m * b + m) by (nonlinear_arith);
    assert(m * (a * r + r) == (m * r) * a + m * r) by (nonlinear_arith);
}

} // verus!

//! Kernel heap: the heap's address range, alignment arithmetic and the
//! allocators that serve it.
use vstd::prelude::*;
use vstd::arithmetic::power2::is_pow2;

pub mod linked_list;
pub mod fixed_size_block;

verus! {

/// Start of the heap's virtual address range.
pub const HEAP_START: u64 = 0x4444_4444_0000;
/// Size of the heap in bytes (100 KiB).
pub const HEAP_SIZE: u64 = 100 * 1024;

/// Bytes per page.
pub const PAGE_SIZE: u64 = 4096;

/// The smallest multiple of `align` that is at least `addr`.
pub open spec fn round_up(addr: int, align: int) -> int {
    if addr % align == 0 {
        addr
    } else {
        addr + align - addr % align
    }
}

/// Aligns `addr` upwards to a multiple of `align`.
pub fn align_up(addr: u64, align: u64) -> (r: u64)
    requires
        align > 0,
        round_up(addr as int, align as int) <= u64::MAX,
    ensures
        r == round_up(addr as int, align as int),
        r % align == 0,
        addr <= r < addr + align,
{
    proof {
        lemma_round_up(addr as int, align as int);
    }
    let rem = addr % align;
    if rem == 0 {
        addr
    } else {
        addr + (align - rem)
    }
}

/// `round_up(x, a)` is a multiple of `a` in `[x, x + a)`.
pub proof fn lemma_round_up(x: int, a: int)
    requires
        x >= 0,
        a > 0,
    ensures
        round_up(x, a) % a == 0,
        x <= round_up(x, a) < x + a,
{
    let q = x / a;
    vstd::arithmetic::div_mod::lemma_fundamental_div_mod(x, a);
    vstd::arithmetic::div_mod::lemma_mod_bound(x, a);
    if x % a != 0 {
        vstd::arithmetic::mul::lemma_mul_is_distributive_add(a, q, 1);
        assert(x + a - x % a == a * (q + 1));
        vstd::arithmetic::mul::lemma_mul_is_commutative(a, q + 1);
        vstd::arithmetic::div_mod::lemma_mod_multiples_basic(q + 1, a);
    }
}

/// A power of two of at least 8 is a multiple of 8.
pub proof fn lemma_pow2_multiple_of_8(a: int)
    requires
        is_pow2(a),
        a >= 8,
    ensures
        a % 8 == 0,
        is_pow2(a / 8),
{
    reveal(is_pow2);
    assert(a % 2 == 0 && is_pow2(a / 2));
    assert((a / 2) % 2 == 0 && is_pow2(a / 4));
    assert((a / 4) % 2 == 0 && is_pow2(a / 8));
}

/// A multiple of a multiple of 8 is a multiple of 8.
pub proof fn lemma_multiple_of_8(x: int, a: int)
    requires
        x >= 0,
        a > 0,
        x % a == 0,
        a % 8 == 0,
    ensures
        x % 8 == 0,
{
    vstd::arithmetic::div_mod::lemma_fundamental_div_mod(x, a);
    vstd::arithmetic::div_mod::lemma_fundamental_div_mod(a, 8);
    let q = x / a;
    let m = a / 8;
    assert(x == (8 * m) * q);
    vstd::arithmetic::mul::lemma_mul_is_associative(8, m, q);
    vstd::arithmetic::div_mod::lemma_mod_multiples_basic(m * q, 8);
    vstd::arithmetic::mul::lemma_mul_is_commutative(8, m * q);
}

pub proof fn lemma_pow2_8()
    ensures
        is_pow2(8),
{
    reveal_with_fuel(is_pow2, 5);
}

/// An allocator that has no memory: every request fails.
pub struct Dummy;

impl Dummy {
    /// Always the null address.
    pub fn allocate(&self, size: u64, align: u64) -> (r: u64)
        ensures
            r == 0,
    {
        0
    }
}

/// Number of pages that hold the heap: every page that contains an address
/// of `[HEAP_START, HEAP_START + HEAP_SIZE)`.
pub fn heap_page_count() -> (r: u64)
    ensures
        r == 25,
        HEAP_START % 4096 == 0,
        HEAP_START + 4096 * r >= HEAP_START + HEAP_SIZE,
        HEAP_START + 4096 * (r - 1) < HEAP_START + HEAP_SIZE,
{
    let first = HEAP_START / PAGE_SIZE;
    let last = (HEAP_START + HEAP_SIZE - 1) / PAGE_SIZE;
    last - first + 1
}

/// Start address of the heap's page number `index`, counting from 0.
pub fn heap_page(index: u64) -> (r: u64)
    requires
        index < 25,
    ensures
        r == HEAP_START + 4096 * index,
        r % 4096 == 0,
{
    HEAP_START + PAGE_SIZE * index
}

} // verus!

//! Fixed-size-block allocator: one free list per power-of-two size class,
//! with the first-fit allocator behind it.
use vstd::prelude::*;
use vstd::arithmetic::power2::is_pow2;
use crate::allocator::{HEAP_SIZE, HEAP_START, round_up, lemma_pow2_8};
use crate::allocator::linked_list::{
    LinkedListAllocator, ListNode, adjusted, ll_alloc, ll_dealloc, request_ok, region_ok, fit,
    is_first_fit,
};

verus! {

/// Number of size classes.
pub const BLOCK_CLASSES: usize = 9;

/// Size (and alignment) of the blocks of class `i`: 8, 16, ..., 2048 bytes.
pub open spec fn class_size(i: int) -> int
    decreases i,
{
    if i <= 0 {
        8
    } else {
        2 * class_size(i - 1)
    }
}

/// The first class from `i` on whose blocks hold `req` bytes.
pub open spec fn class_from(req: int, i: int) -> Option<int>
    decreases 9 - i,
{
    if i >= 9 || i < 0 {
        None
    } else if class_size(i) >= req {
        Some(i)
    } else {
        class_from(req, i + 1)
    }
}

/// The smallest class whose blocks hold a request of `size` bytes aligned
/// to `align`; none when the request is larger than 2048 bytes.
pub open spec fn class_index(size: int, align: int) -> Option<int> {
    class_from(required_size(size, align), 0)
}

/// Bytes a block must have for a request of `size` bytes aligned to `align`.
pub open spec fn required_size(size: int, align: int) -> int {
    if size >= align {
        size
    } else {
        align
    }
}

/// Size (and alignment) of the blocks of class `index`.
pub fn block_size(index: usize) -> (r: u64)
    requires
        index < 9,
    ensures
        r == class_size(index as int),
        is_pow2(r as int),
        8 <= r <= 2048,
{
    proof {
        reveal_with_fuel(class_size, 10);
        reveal_with_fuel(is_pow2, 13);
    }
    match index {
        0 => 8,
        1 => 16,
        2 => 32,
        3 => 64,
        4 => 128,
        5 => 256,
        6 => 512,
        7 => 1024,
        _ => 2048,
    }
}

/// Chooses the size class for a request of `size` bytes aligned to `align`.
pub fn list_index(size: u64, align: u64) -> (r: Option<usize>)
    ensures
        r matches Some(i) ==> i < 9,
        r matches Some(i) ==> class_index(size as int, align as int) == Some(i as int),
        r is None ==> class_index(size as int, align as int) is None,
{
    let required = if size >= align { size } else { align };
    assert(required as int == required_size(size as int, align as int));
    let mut i: usize = 0;
    while i < BLOCK_CLASSES
        invariant
            i <= 9,
            class_from(required as int, 0) == class_from(required as int, i as int),
            required as int == required_size(size as int, align as int),
        decreases 9 - i,
    {
        if block_size(i) >= required {
            assert(class_from(required as int, i as int) == Some(i as int));
            return Some(i);
        }
        i = i + 1;
    }
    None
}

/// What the allocator holds: the free blocks of each class (the last one
/// is handed out first) and the fallback's free regions.
pub struct FixedView {
    pub lists: Seq<Seq<u64>>,
    pub fallback: Seq<ListNode>,
}

/// The state and the returned address after an allocation of `size` bytes
/// aligned to `align`: a request that fits a class takes that class's most
/// recently freed block, or a fresh block of exactly the class size from the
/// fallback; a larger request goes to the fallback. The address is 0 when
/// the request cannot be served.
pub open spec fn fixed_alloc(v: FixedView, size: int, align: int) -> (FixedView, int) {
    match class_index(size, align) {
        Some(i) => if v.lists[i].len() > 0 {
            (FixedView { lists: v.lists.update(i, v.lists[i].drop_last()), ..v }, v.lists[i].last() as int)
        } else {
            let (f, p) = ll_alloc(v.fallback, class_size(i), class_size(i));
            (FixedView { fallback: f, ..v }, p)
        },
        None => {
            let (f, p) = ll_alloc(v.fallback, size, align);
            (FixedView { fallback: f, ..v }, p)
        },
    }
}

/// The state after the block at `ptr` of a `size`/`align` request is freed:
/// a class block joins its class's list, a larger one goes to the fallback.
pub open spec fn fixed_dealloc(v: FixedView, ptr: int, size: int, align: int) -> FixedView {
    match class_index(size, align) {
        Some(i) => FixedView { lists: v.lists.update(i, v.lists[i].push(ptr as u64)), ..v },
        None => FixedView { fallback: ll_dealloc(v.fallback, ptr, size, align), ..v },
    }
}

/// The allocator right after it is handed the heap.
pub open spec fn heap_initialized() -> FixedView {
    FixedView {
        lists: Seq::new(9, |i: int| Seq::<u64>::empty()),
        fallback: seq![ListNode { start: HEAP_START, size: HEAP_SIZE }],
    }
}

/// The allocator holding one free list per size class and a fallback.
pub struct FixedSizeBlockAllocator {
    list_heads: Vec<Vec<u64>>,
    fallback_allocator: LinkedListAllocator,
}

impl FixedSizeBlockAllocator {
    pub closed spec fn view(&self) -> FixedView {
        FixedView {
            lists: self.list_heads@.map_values(|l: Vec<u64>| l@),
            fallback: self.fallback_allocator@,
        }
    }

    pub closed spec fn wf(&self) -> bool {
        &&& self.list_heads@.len() == 9
        &&& self.fallback_allocator.wf()
    }

    /// An allocator with empty lists and an empty fallback.
    pub fn new() -> (r: FixedSizeBlockAllocator)
        ensures
            r.wf(),
            r@.lists == Seq::new(9, |i: int| Seq::<u64>::empty()),
            r@.fallback == Seq::<ListNode>::empty(),
    {
        let mut list_heads: Vec<Vec<u64>> = Vec::new();
        let mut i: usize = 0;
        while i < BLOCK_CLASSES
            invariant
                i <= 9,
                list_heads@.len() == i,
                forall|j: int| 0 <= j < i ==> (#[trigger] list_heads@[j])@ == Seq::<u64>::empty(),
            decreases 9 - i,
        {
            list_heads.push(Vec::new());
            i = i + 1;
        }
        let r = FixedSizeBlockAllocator { list_heads, fallback_allocator: LinkedListAllocator::new() };
        assert(r@.lists =~= Seq::new(9, |i: int| Seq::<u64>::empty()));
        r
    }

    /// Hands the fallback the region `[heap_start, heap_start + heap_size)`.
    pub fn init(&mut self, heap_start: u64, heap_size: u64)
        requires
            old(self).wf(),
            region_ok(ListNode { start: heap_start, size: heap_size }),
        ensures
            final(self).wf(),
            final(self)@ == (FixedView {
                fallback: seq![ListNode { start: heap_start, size: heap_size }] + old(self)@.fallback,
                ..old(self)@
            }),
    {
        self.fallback_allocator.init(heap_start, heap_size);
    }

    /// Allocates from the fallback; 0 when it cannot serve the request.
    fn fallback_alloc(&mut self, size: u64, align: u64) -> (r: u64)
        requires
            old(self).wf(),
            request_ok(size, align),
        ensures
            final(self).wf(),
            (final(self)@.fallback, r as int) == ll_alloc(old(self)@.fallback, size as int, align as int),
            final(self)@.lists == old(self)@.lists,
    {
        self.fallback_allocator.allocate(size, align)
    }

    /// Allocates `size` bytes aligned to `align`; returns 0 when the request
    /// cannot be served.
    pub fn allocate(&mut self, size: u64, align: u64) -> (r: u64)
        requires
            old(self).wf(),
            request_ok(size, align),
        ensures
            final(self).wf(),
            (final(self)@, r as int) == fixed_alloc(old(self)@, size as int, align as int),
    {
        match list_index(size, align) {
            Some(index) => {
                let ghost lists0 = self@.lists;
                assert(self.list_heads@[index as int]@ == lists0[index as int]);
                if self.list_heads[index].len() > 0 {
                    let node = self.list_heads[index].pop().unwrap();
                    assert(self@.lists =~= lists0.update(index as int, lists0[index as int].drop_last()));
                    node
                } else {
                    let bs = block_size(index);
                    proof {
                        lemma_pow2_8();
                        crate::allocator::lemma_round_up(bs as int, bs as int);
                        vstd::arithmetic::div_mod::lemma_mod_self_0(bs as int);
                    }
                    self.fallback_alloc(bs, bs)
                }
            },
            None => self.fallback_alloc(size, align),
        }
    }

    /// Frees the block at `ptr` of an allocation of `size` bytes aligned to
    /// `align`.
    pub fn deallocate(&mut self, ptr: u64, size: u64, align: u64)
        requires
            old(self).wf(),
            request_ok(size, align),
            ptr % 8 == 0,
            ptr + adjusted(size as int, align as int).0 <= u64::MAX,
        ensures
            final(self).wf(),
            final(self)@ == fixed_dealloc(old(self)@, ptr as int, size as int, align as int),
    {
        match list_index(size, align) {
            Some(index) => {
                let ghost lists0 = self@.lists;
                assert(self.list_heads@[index as int]@ == lists0[index as int]);
                self.list_heads[index].push(ptr);
                assert(self@.lists =~= lists0.update(index as int, lists0[index as int].push(ptr)));
            },
            None => {
                self.fallback_allocator.deallocate(ptr, size, align);
            },
        }
    }
}

/// One round of allocating a single `u64` (8 bytes, aligned to 8) and
/// freeing it again; also the address the allocation got.
pub open spec fn reuse_step(v: FixedView) -> (FixedView, int) {
    let (v1, p) = fixed_alloc(v, 8, 8);
    (fixed_dealloc(v1, p, 8, 8), p)
}

/// The allocator after `n` such rounds.
pub open spec fn reuse_run(v: FixedView, n: nat) -> FixedView
    decreases n,
{
    if n == 0 {
        v
    } else {
        reuse_step(reuse_run(v, (n - 1) as nat)).0
    }
}

/// The allocator after the first round from a fresh heap: the heap's first
/// block sits in the smallest class's list.
pub open spec fn after_first_round() -> FixedView {
    FixedView {
        lists: heap_initialized().lists.update(0, seq![HEAP_START]),
        fallback: seq![ListNode { start: (HEAP_START + 16) as u64, size: (HEAP_SIZE - 16) as u64 }],
    }
}

proof fn lemma_first_round()
    ensures
        reuse_step(heap_initialized()) == (after_first_round(), HEAP_START as int),
{
    let v = heap_initialized();
    assert(class_from(8, 0) == Some(0int));
    assert(class_index(8, 8) == Some(0int));
    assert(class_size(0) == 8);
    assert(v.lists[0].len() == 0);
    assert(adjusted(8, 8) == (16int, 8int));
    let r = v.fallback[0];
    assert(HEAP_START % 8 == 0);
    assert(round_up(HEAP_START as int, 8) == HEAP_START as int);
    assert(fit(r, 16, 8) == Some(HEAP_START as int));
    assert(is_first_fit(v.fallback, 16, 8, 0));
    let k = crate::allocator::linked_list::first_fit(v.fallback, 16, 8);
    assert(is_first_fit(v.fallback, 16, 8, k));
    assert(k == 0);
    let (f, p) = ll_alloc(v.fallback, 8, 8);
    assert(p == HEAP_START as int);
    assert(v.fallback.remove(0) =~= Seq::<ListNode>::empty());
    assert(f =~= seq![ListNode { start: (HEAP_START + 16) as u64, size: (HEAP_SIZE - 16) as u64 }]);
    let v1 = FixedView { fallback: f, ..v };
    assert(fixed_alloc(v, 8, 8) == (v1, p));
    let v2 = fixed_dealloc(v1, p, 8, 8);
    assert(v2.lists =~= after_first_round().lists);
}

proof fn lemma_steady_round()
    ensures
        reuse_step(after_first_round()) == (after_first_round(), HEAP_START as int),
{
    let v = after_first_round();
    assert(class_from(8, 0) == Some(0int));
    assert(class_index(8, 8) == Some(0int));
    assert(v.lists[0] == seq![HEAP_START]);
    let v1 = FixedView { lists: v.lists.update(0, v.lists[0].drop_last()), ..v };
    assert(fixed_alloc(v, 8, 8) == (v1, HEAP_START as int));
    assert(v1.lists[0] =~= Seq::<u64>::empty());
    let v2 = fixed_dealloc(v1, HEAP_START as int, 8, 8);
    assert(v2.lists[0] =~= seq![HEAP_START]);
    assert(v2.lists =~= v.lists);
}

proof fn lemma_run_steady(n: nat)
    requires
        n >= 1,
    ensures
        reuse_run(heap_initialized(), n) == after_first_round(),
    decreases n,
{
    if n == 1 {
        lemma_first_round();
        assert(reuse_run(heap_initialized(), 0) == heap_initialized());
    } else {
        lemma_run_steady((n - 1) as nat);
        lemma_steady_round();
    }
}

/// Heap reuse: starting from a fresh heap, allocating a single `u64` and
/// freeing it before the next allocation never exhausts the heap, however
/// many rounds run; every round gets the heap's first block back.
pub proof fn heap_reuse(n: nat)
    ensures
        reuse_step(reuse_run(heap_initialized(), n)).1 == HEAP_START,
        HEAP_START != 0,
{
    if n == 0 {
        lemma_first_round();
    } else {
        lemma_run_steady(n);
        lemma_steady_round();
    }
}

} // verus!

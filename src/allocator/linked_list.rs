//! First-fit free-list allocator: splits regions, never merges them.
use vstd::prelude::*;
use vstd::arithmetic::power2::is_pow2;
use crate::allocator::{align_up, round_up, lemma_round_up, lemma_pow2_multiple_of_8, lemma_pow2_8, lemma_multiple_of_8};

verus! {

/// Size of the record a free region keeps at its start; no region and no
/// allocation is smaller.
pub const NODE_SIZE: u64 = 16;
/// Alignment of that record.
pub const NODE_ALIGN: u64 = 8;

/// A free region of the heap.
#[derive(Debug, Clone, Copy, PartialEq, Eq, Structural)]
pub struct ListNode {
    pub start: u64,
    pub size: u64,
}

impl ListNode {
    pub fn new(start: u64, size: u64) -> (r: ListNode)
        ensures
            r == (ListNode { start, size }),
    {
        ListNode { start, size }
    }

    pub fn start_addr(&self) -> (r: u64)
        ensures
            r == self.start,
    {
        self.start
    }

    pub fn end_addr(&self) -> (r: u64)
        requires
            self.start + self.size <= u64::MAX,
        ensures
            r == self.start + self.size,
    {
        self.start + self.size
    }
}

/// A region can hold the free-list record and lies inside the address space.
pub open spec fn region_ok(n: ListNode) -> bool {
    &&& n.start % 8 == 0
    &&& n.size >= 16
    &&& n.start + n.size <= u64::MAX
}

/// Where an allocation of `size` bytes aligned to `align` would start in
/// `region`, if the region can take it: it must fit, and what is left after
/// it must be empty or large enough to stay a free region.
pub open spec fn fit(region: ListNode, size: int, align: int) -> Option<int> {
    let start = round_up(region.start as int, align);
    let end = start + size;
    let region_end = region.start + region.size;
    if start > u64::MAX || end > u64::MAX || end > region_end {
        None
    } else if region_end - end > 0 && region_end - end < 16 {
        None
    } else {
        Some(start)
    }
}

/// `i` is the first region of `rs` that fits the request.
pub open spec fn is_first_fit(rs: Seq<ListNode>, size: int, align: int, i: int) -> bool {
    &&& 0 <= i < rs.len()
    &&& fit(rs[i], size, align) is Some
    &&& forall|j: int| 0 <= j < i ==> #[trigger] fit(rs[j], size, align) is None
}

pub open spec fn first_fit(rs: Seq<ListNode>, size: int, align: int) -> int {
    choose|i: int| is_first_fit(rs, size, align, i)
}

/// The size and alignment actually reserved for a request: the alignment
/// raised to at least 8, the size rounded up to it and to at least 16.
pub open spec fn adjusted(size: int, align: int) -> (int, int) {
    let a = if align >= 8 { align } else { 8 };
    let s = round_up(size, a);
    (if s >= 16 { s } else { 16 }, a)
}

/// A request the allocator accepts: the alignment is a power of two and the
/// size, rounded up to an alignment of at least 8, still fits in `isize`.
pub open spec fn request_ok(size: u64, align: u64) -> bool {
    &&& is_pow2(align as int)
    &&& round_up(size as int, if align >= 8 { align as int } else { 8 }) <= 0x7FFF_FFFF_FFFF_FFFFu64
}

/// The free list and the returned address after an allocation of `size`
/// bytes aligned to `align`: the first region that fits leaves the list,
/// and what is left after the allocation goes back to its front. The
/// address is 0 when no region fits.
pub open spec fn ll_alloc(rs: Seq<ListNode>, size: int, align: int) -> (Seq<ListNode>, int) {
    let (s, a) = adjusted(size, align);
    if exists|i: int| is_first_fit(rs, s, a, i) {
        let i = first_fit(rs, s, a);
        let start = fit(rs[i], s, a).unwrap();
        let end = start + s;
        let excess = rs[i].start + rs[i].size - end;
        let rest = rs.remove(i);
        if excess > 0 {
            (seq![ListNode { start: end as u64, size: excess as u64 }] + rest, start)
        } else {
            (rest, start)
        }
    } else {
        (rs, 0)
    }
}

/// The free list after the block at `ptr` of a `size`/`align` request is
/// given back: it becomes a region at the front of the list.
pub open spec fn ll_dealloc(rs: Seq<ListNode>, ptr: int, size: int, align: int) -> Seq<ListNode> {
    seq![ListNode { start: ptr as u64, size: adjusted(size, align).0 as u64 }] + rs
}

/// A free list of regions over a part of the address space.
pub struct LinkedListAllocator {
    regions: Vec<ListNode>,
}

impl LinkedListAllocator {
    /// The free regions, front of the list first.
    pub closed spec fn view(&self) -> Seq<ListNode> {
        self.regions@
    }

    pub open spec fn wf(&self) -> bool {
        forall|i: int| 0 <= i < self@.len() ==> region_ok(#[trigger] self@[i])
    }

    /// An allocator with no free region.
    pub fn new() -> (r: LinkedListAllocator)
        ensures
            r.wf(),
            r@ == Seq::<ListNode>::empty(),
    {
        LinkedListAllocator { regions: Vec::new() }
    }

    /// Hands the allocator the region `[heap_start, heap_start + heap_size)`.
    pub fn init(&mut self, heap_start: u64, heap_size: u64)
        requires
            old(self).wf(),
            region_ok(ListNode { start: heap_start, size: heap_size }),
        ensures
            final(self).wf(),
            final(self)@ == seq![ListNode { start: heap_start, size: heap_size }] + old(self)@,
    {
        self.add_free_region(heap_start, heap_size);
    }

    /// Puts the region `[addr, addr + size)` at the front of the free list.
    pub fn add_free_region(&mut self, addr: u64, size: u64)
        requires
            old(self).wf(),
            region_ok(ListNode { start: addr, size }),
        ensures
            final(self).wf(),
            final(self)@ == seq![ListNode { start: addr, size }] + old(self)@,
    {
        self.regions.insert(0, ListNode::new(addr, size));
        assert(self@ =~= seq![ListNode { start: addr, size }] + old(self)@);
    }

    /// Where an allocation of `size` bytes aligned to `align` would start in
    /// `region`; `Err` when the region cannot take it.
    pub fn alloc_from_region(region: &ListNode, size: u64, align: u64) -> (r: Result<u64, ()>)
        requires
            region_ok(*region),
            align > 0,
        ensures
            r matches Ok(s) ==> fit(*region, size as int, align as int) == Some(s as int),
            r is Err ==> fit(*region, size as int, align as int) is None,
    {
        let rem = region.start % align;
        if rem != 0 && region.start > u64::MAX - (align - rem) {
            return Err(());
        }
        let alloc_start = align_up(region.start, align);
        let alloc_end = match alloc_start.checked_add(size) {
            Some(e) => e,
            None => return Err(()),
        };
        let region_end = region.end_addr();
        if alloc_end > region_end {
            return Err(());
        }
        let excess_size = region_end - alloc_end;
        if excess_size > 0 && excess_size < NODE_SIZE {
            return Err(());
        }
        Ok(alloc_start)
    }

    /// Removes the first region that can take an allocation of `size` bytes
    /// aligned to `align` and returns it with the allocation's start.
    pub fn find_region(&mut self, size: u64, align: u64) -> (r: Option<(ListNode, u64)>)
        requires
            old(self).wf(),
            align > 0,
        ensures
            final(self).wf(),
            r matches Some((n, s)) ==> {
                let i = first_fit(old(self)@, size as int, align as int);
                &&& is_first_fit(old(self)@, size as int, align as int, i)
                &&& n == old(self)@[i]
                &&& fit(n, size as int, align as int) == Some(s as int)
                &&& final(self)@ == old(self)@.remove(i)
            },
            r is None ==> !(exists|i: int| is_first_fit(old(self)@, size as int, align as int, i)) && final(self)@ == old(self)@,
    {
        let mut i: usize = 0;
        while i < self.regions.len()
            invariant
                self@ == old(self)@,
                self.wf(),
                align > 0,
                i <= self@.len(),
                forall|j: int| 0 <= j < i ==> #[trigger] fit(self@[j], size as int, align as int) is None,
            decreases self@.len() - i,
        {
            let region = self.regions[i];
            match Self::alloc_from_region(&region, size, align) {
                Ok(alloc_start) => {
                    proof {
                        let k = first_fit(old(self)@, size as int, align as int);
                        assert(is_first_fit(old(self)@, size as int, align as int, i as int));
                        assert(is_first_fit(old(self)@, size as int, align as int, k));
                        if k < i {
                            assert(fit(old(self)@[k], size as int, align as int) is None);
                        } else if i < k {
                            assert(fit(old(self)@[i as int], size as int, align as int) is None);
                        }
                    }
                    let node = self.regions.remove(i);
                    assert forall|j: int| 0 <= j < self@.len() implies region_ok(#[trigger] self@[j]) by {
                        if j < i {
                            assert(self@[j] == old(self)@[j]);
                        } else {
                            assert(self@[j] == old(self)@[j + 1]);
                        }
                    }
                    return Some((node, alloc_start));
                },
                Err(()) => {},
            }
            i = i + 1;
        }
        None
    }

    /// The size and alignment reserved for a request of `size` bytes aligned
    /// to `align`, so that the block can later hold a free-list record.
    pub fn size_align(size: u64, align: u64) -> (r: (u64, u64))
        requires
            request_ok(size, align),
        ensures
            r.0 as int == adjusted(size as int, align as int).0,
            r.1 as int == adjusted(size as int, align as int).1,
            r.1 % 8 == 0,
            r.0 % 8 == 0,
            r.0 >= 16,
            is_pow2(r.1 as int),
            r.0 <= 0x7FFF_FFFF_FFFF_FFFFu64,
    {
        let a = if align >= NODE_ALIGN { align } else { NODE_ALIGN };
        proof {
            lemma_pow2_8();
            lemma_pow2_multiple_of_8(a as int);
        }
        let s = align_up(size, a);
        proof {
            lemma_multiple_of_8(s as int, a as int);
        }
        let s = if s >= NODE_SIZE { s } else { NODE_SIZE };
        (s, a)
    }

    /// Allocates `size` bytes aligned to `align` from the first region that
    /// fits; returns 0 when none does.
    pub fn allocate(&mut self, size: u64, align: u64) -> (r: u64)
        requires
            old(self).wf(),
            request_ok(size, align),
        ensures
            final(self).wf(),
            (final(self)@, r as int) == ll_alloc(old(self)@, size as int, align as int),
    {
        let (s, a) = Self::size_align(size, align);
        match self.find_region(s, a) {
            Some((region, alloc_start)) => {
                let alloc_end = alloc_start + s;
                let excess_size = region.end_addr() - alloc_end;
                if excess_size > 0 {
                    proof {
                        lemma_round_up(region.start as int, a as int);
                        lemma_multiple_of_8(alloc_start as int, a as int);
                        vstd::arithmetic::div_mod::lemma_mod_adds(alloc_start as int, s as int, 8);
                    }
                    self.add_free_region(alloc_end, excess_size);
                }
                alloc_start
            },
            None => 0,
        }
    }

    /// Gives back the block at `ptr` of an allocation of `size` bytes aligned
    /// to `align`: it becomes a free region at the front of the list.
    pub fn deallocate(&mut self, ptr: u64, size: u64, align: u64)
        requires
            old(self).wf(),
            request_ok(size, align),
            ptr % 8 == 0,
            ptr + adjusted(size as int, align as int).0 <= u64::MAX,
        ensures
            final(self).wf(),
            final(self)@ == ll_dealloc(old(self)@, ptr as int, size as int, align as int),
    {
        let (s, _a) = Self::size_align(size, align);
        self.add_free_region(ptr, s);
    }
}

} // verus!

//! Physical frames: the boot memory map and the frame allocators over it.
use vstd::prelude::*;

verus! {

/// Bytes per frame.
pub const FRAME_SIZE: u64 = 4096;

/// Whether the boot stage left a region free for the kernel.
#[derive(Debug, Clone, Copy, PartialEq, Eq, Structural)]
pub enum MemoryRegionType {
    Usable,
    Reserved,
}

/// A region `[start_addr, end_addr)` of physical memory from the boot map.
#[derive(Debug, Clone, Copy, PartialEq, Eq, Structural)]
pub struct MemoryRegion {
    pub start_addr: u64,
    pub end_addr: u64,
    pub region_type: MemoryRegionType,
}

/// A 4 KiB physical frame, named by its start address.
#[derive(Debug, Clone, Copy, PartialEq, Eq, Structural)]
pub struct PhysFrame {
    pub start_address: u64,
}

/// A memory map the allocator accepts: page-aligned regions in address
/// order that do not overlap.
pub open spec fn map_valid(map: Seq<MemoryRegion>) -> bool {
    &&& forall|i: int| 0 <= i < map.len() ==> {
        &&& (#[trigger] map[i]).start_addr % 4096 == 0
        &&& map[i].end_addr % 4096 == 0
        &&& map[i].start_addr <= map[i].end_addr
    }
    &&& forall|i: int, j: int| 0 <= i < j < map.len() ==> #[trigger] map[i].end_addr <= #[trigger] map[j].start_addr
}

/// Start addresses of the frames of one region: every 4 KiB step of a
/// usable region, none of a reserved one.
pub open spec fn region_frames(r: MemoryRegion) -> Seq<u64> {
    if r.region_type == MemoryRegionType::Usable && r.start_addr <= r.end_addr {
        Seq::new(((r.end_addr - r.start_addr) / 4096) as nat, |k: int| (r.start_addr + 4096 * k) as u64)
    } else {
        Seq::empty()
    }
}

/// Start addresses of all usable frames of the map, region by region.
pub open spec fn usable_frames(map: Seq<MemoryRegion>) -> Seq<u64>
    decreases map.len(),
{
    if map.len() == 0 {
        Seq::empty()
    } else {
        usable_frames(map.drop_last()) + region_frames(map.last())
    }
}

/// Frame `f` lies wholly inside a usable region of the map.
pub open spec fn in_usable_region(map: Seq<MemoryRegion>, f: u64) -> bool {
    exists|k: int| 0 <= k < map.len() && map[k].region_type == MemoryRegionType::Usable
        && (#[trigger] map[k]).start_addr <= f && f + 4096 <= map[k].end_addr
}

proof fn lemma_frames_in_regions(map: Seq<MemoryRegion>)
    requires
        map_valid(map),
    ensures
        forall|i: int| 0 <= i < usable_frames(map).len() ==> in_usable_region(map, #[trigger] usable_frames(map)[i]),
        forall|i: int, j: int| 0 <= i < j < usable_frames(map).len() ==> #[trigger] usable_frames(map)[i] < #[trigger] usable_frames(map)[j],
    decreases map.len(),
{
    if map.len() > 0 {
        let p = map.drop_last();
        let last = map.last();
        assert(map_valid(p)) by {
            assert forall|i: int, j: int| 0 <= i < j < p.len() implies #[trigger] p[i].end_addr <= #[trigger] p[j].start_addr by {
                assert(p[i] == map[i] && p[j] == map[j]);
            }
            assert forall|i: int| 0 <= i < p.len() implies (#[trigger] p[i]).start_addr % 4096 == 0 && p[i].end_addr % 4096 == 0 && p[i].start_addr <= p[i].end_addr by {
                assert(p[i] == map[i]);
            }
        }
        lemma_frames_in_regions(p);
        let fp = usable_frames(p);
        let fl = region_frames(last);
        let all = usable_frames(map);
        assert(all == fp + fl);
        assert(map[map.len() - 1] == last);
        assert forall|i: int| 0 <= i < all.len() implies in_usable_region(map, #[trigger] all[i]) by {
            if i < fp.len() {
                assert(all[i] == fp[i]);
                assert(in_usable_region(p, fp[i]));
                let k = choose|k: int| 0 <= k < p.len() && p[k].region_type == MemoryRegionType::Usable
                    && (#[trigger] p[k]).start_addr <= fp[i] && fp[i] + 4096 <= p[k].end_addr;
                assert(map[k] == p[k]);
            } else {
                let k = i - fp.len();
                assert(all[i] == fl[k]);
                assert(last.start_addr + 4096 * k + 4096 <= last.end_addr) by (nonlinear_arith)
                    requires
                        0 <= k < (last.end_addr - last.start_addr) / 4096,
                        last.start_addr <= last.end_addr,
                ;
            }
        }
        assert forall|i: int, j: int| 0 <= i < j < all.len() implies #[trigger] all[i] < #[trigger] all[j] by {
            if j < fp.len() {
                assert(all[i] == fp[i] && all[j] == fp[j]);
            } else if i >= fp.len() {
                assert(all[i] == fl[i - fp.len()] && all[j] == fl[j - fp.len()]);
                assert(last.start_addr + 4096 * (j - fp.len()) < u64::MAX) by (nonlinear_arith)
                    requires
                        0 <= j - fp.len() < (last.end_addr - last.start_addr) / 4096,
                        last.start_addr <= last.end_addr,
                ;
            } else {
                assert(all[i] == fp[i]);
                assert(in_usable_region(p, fp[i]));
                let k = choose|k: int| 0 <= k < p.len() && p[k].region_type == MemoryRegionType::Usable
                    && (#[trigger] p[k]).start_addr <= fp[i] && fp[i] + 4096 <= p[k].end_addr;
                assert(map[k] == p[k]);
                assert(map[k].end_addr <= map[map.len() - 1].start_addr);
                assert(all[j] == fl[j - fp.len()]);
            }
        }
    }
}

/// Frame uniqueness: the frames of a valid map come in strictly increasing
/// order, so none repeats, and each lies inside a usable region. The
/// allocator hands them out in this order.
pub proof fn frames_unique(map: Seq<MemoryRegion>, i: int, j: int)
    requires
        map_valid(map),
        0 <= i < j < usable_frames(map).len(),
    ensures
        usable_frames(map)[i] != usable_frames(map)[j],
        in_usable_region(map, usable_frames(map)[i]),
        in_usable_region(map, usable_frames(map)[j]),
{
    lemma_frames_in_regions(map);
}

/// Whether the first `count` regions of `map` form a map the frame
/// allocator accepts.
pub fn valid_memory_map(map: &[MemoryRegion; 64], count: usize) -> (r: bool)
    ensures
        r == (count <= 64 && map_valid(map@.take(count as int))),
{
    if count > 64 {
        return false;
    }
    let ghost m = map@.take(count as int);
    let mut i: usize = 0;
    let mut last_end: u64 = 0;
    while i < count
        invariant
            count <= 64,
            m == map@.take(count as int),
            i <= count,
            map_valid(m.take(i as int)),
            forall|j: int| 0 <= j < i ==> #[trigger] m[j].end_addr <= last_end,
            i > 0 ==> last_end == m[i - 1].end_addr,
        decreases count - i,
    {
        let r = map[i];
        assert(m[i as int] == r);
        if r.start_addr % 4096 != 0 || r.end_addr % 4096 != 0 || r.start_addr > r.end_addr {
            assert(!map_valid(m)) by {
                assert(m[i as int] == r);
            }
            return false;
        }
        if i > 0 && last_end > r.start_addr {
            assert(m[i - 1].end_addr > m[i as int].start_addr);
            return false;
        }
        proof {
            let t = m.take(i + 1);
            assert forall|a: int, b: int| 0 <= a < b < t.len() implies #[trigger] t[a].end_addr <= #[trigger] t[b].start_addr by {
                if b < i {
                    assert(m.take(i as int)[a] == t[a] && m.take(i as int)[b] == t[b]);
                } else {
                    assert(t[a] == m[a]);
                }
            }
            assert forall|a: int| 0 <= a < t.len() implies (#[trigger] t[a]).start_addr % 4096 == 0 && t[a].end_addr % 4096 == 0 && t[a].start_addr <= t[a].end_addr by {
                if a < i {
                    assert(m.take(i as int)[a] == t[a]);
                }
            }
        }
        i = i + 1;
        last_end = r.end_addr;
    }
    assert(m.take(count as int) =~= m);
    true
}

/// A frame allocator that has no frame to give.
pub struct EmptyFrameAllocator;

impl EmptyFrameAllocator {
    pub fn allocate_frame(&mut self) -> (r: Option<PhysFrame>)
        ensures
            r is None,
    {
        None
    }
}

/// Hands out the usable frames of the boot memory map one after another and
/// never takes one back.
pub struct BootInfoFrameAllocator {
    memory_map: [MemoryRegion; 64],
    region_count: usize,
    next: u64,
}

/// Most regions a boot memory map holds.
pub const MAX_MEMORY_REGIONS: usize = 64;

impl BootInfoFrameAllocator {
    /// The map's regions.
    pub closed spec fn map(&self) -> Seq<MemoryRegion> {
        self.memory_map@.take(self.region_count as int)
    }

    /// How many frames were asked for so far.
    pub closed spec fn cursor(&self) -> nat {
        self.next as nat
    }

    pub closed spec fn wf(&self) -> bool {
        &&& self.region_count <= 64
        &&& map_valid(self.map())
    }

    /// An allocator over the first `region_count` regions of `memory_map`
    /// that has handed out nothing yet.
    pub fn init(memory_map: [MemoryRegion; 64], region_count: usize) -> (r: BootInfoFrameAllocator)
        requires
            region_count <= 64,
            map_valid(memory_map@.take(region_count as int)),
        ensures
            r.wf(),
            r.map() == memory_map@.take(region_count as int),
            r.cursor() == 0,
    {
        BootInfoFrameAllocator { memory_map, region_count, next: 0 }
    }

    /// The next usable frame: the `n`-th frame of the map on the `n`-th call
    /// (counting from 0), `None` once they are used up.
    pub fn allocate_frame(&mut self) -> (r: Option<PhysFrame>)
        requires
            old(self).wf(),
        ensures
            final(self).wf(),
            final(self).map() == old(self).map(),
            old(self).cursor() < usable_frames(old(self).map()).len() ==> r == Some(PhysFrame {
                start_address: usable_frames(old(self).map())[old(self).cursor() as int],
            }),
            old(self).cursor() >= usable_frames(old(self).map()).len() ==> r is None,
            final(self).cursor() == if old(self).cursor() < u64::MAX { old(self).cursor() + 1 } else { old(self).cursor() },
    {
        let r = nth_frame(&self.memory_map, self.region_count, self.next);
        if self.next < u64::MAX {
            self.next = self.next + 1;
        }
        r
    }
}

/// Frame `n` (counting from 0) of the usable frames of `map`.
fn nth_frame(regions: &[MemoryRegion; 64], count: usize, n: u64) -> (r: Option<PhysFrame>)
    requires
        count <= 64,
    ensures
        n < usable_frames(regions@.take(count as int)).len() ==> r == Some(PhysFrame { start_address: usable_frames(regions@.take(count as int))[n as int] }),
        n >= usable_frames(regions@.take(count as int)).len() ==> r is None,
{
    let ghost m = regions@.take(count as int);
    let mut remaining: u64 = n;
    let mut i: usize = 0;
    while i < count
        invariant
            m == regions@.take(count as int),
            count <= 64,
            i <= m.len(),
            remaining + usable_frames(m.take(i as int)).len() == n,
        decreases m.len() - i,
    {
        let r = regions[i];
        proof {
            assert(m[i as int] == r);
            assert(m.take(i + 1).drop_last() =~= m.take(i as int));
            assert(m.take(i + 1).last() == r);
            assert(usable_frames(m.take(i + 1)) == usable_frames(m.take(i as int)) + region_frames(r));
        }
        if r.region_type == MemoryRegionType::Usable && r.start_addr <= r.end_addr {
            let count = (r.end_addr - r.start_addr) / FRAME_SIZE;
            if remaining < count {
                proof {
                    assert(r.start_addr + 4096 * remaining < u64::MAX) by (nonlinear_arith)
                        requires
                            remaining < (r.end_addr - r.start_addr) / 4096,
                            r.start_addr <= r.end_addr,
                    ;
                    lemma_frames_prefix(m, i as int + 1);
                    let pre = usable_frames(m.take(i as int));
                    assert(usable_frames(m.take(i + 1))[n as int] == region_frames(r)[remaining as int]);
                }
                return Some(PhysFrame { start_address: r.start_addr + FRAME_SIZE * remaining });
            }
            remaining = remaining - count;
        }
        i = i + 1;
    }
    assert(m.take(m.len() as int) =~= m);
    None
}

/// The frames of a prefix of the map are a prefix of its frames.
proof fn lemma_frames_prefix(m: Seq<MemoryRegion>, n: int)
    requires
        0 <= n <= m.len(),
    ensures
        usable_frames(m.take(n)).len() <= usable_frames(m).len(),
        forall|k: int| 0 <= k < usable_frames(m.take(n)).len() ==> #[trigger] usable_frames(m.take(n))[k] == usable_frames(m)[k],
    decreases m.len() - n,
{
    if n < m.len() {
        lemma_frames_prefix(m, n + 1);
        assert(m.take(n + 1).drop_last() =~= m.take(n));
        let a = usable_frames(m.take(n));
        let b = usable_frames(m.take(n + 1));
        assert(b == a + region_frames(m.take(n + 1).last()));
        assert forall|k: int| 0 <= k < a.len() implies #[trigger] a[k] == usable_frames(m)[k] by {
            assert(a[k] == b[k]);
        }
    } else {
        assert(m.take(n) =~= m);
    }
}

/// What a page-table entry says of the next step of a walk.
#[derive(Debug, Clone, Copy, PartialEq, Eq, Structural)]
pub enum WalkEntry {
    /// The entry points to the frame starting at this (4 KiB-aligned) address.
    Frame(u64),
    /// The entry is not present.
    NotPresent,
    /// The entry maps a huge page, which this kernel does not support.
    HugeFrame,
}

/// The 9-bit index into the level-`level` table (4 down to 1) for `addr`.
pub open spec fn table_index(addr: u64, level: int) -> u64 {
    (addr as int / pow512(level - 1) / 4096 % 512) as u64
}

/// `512^n`.
pub open spec fn pow512(n: int) -> int
    decreases n,
{
    if n <= 0 {
        1
    } else {
        512 * pow512(n - 1)
    }
}

/// A walk of the 4-level page table that translates one virtual address.
/// The driver reads the entry at `table_index()` of the table at
/// `table_frame()` and reports it with `step`, until the walk is done.
pub struct PageWalk {
    addr: u64,
    level: u64,
    frame: u64,
}

/// Where a walk stands after a step.
#[derive(Debug, Clone, Copy, PartialEq, Eq, Structural)]
pub enum WalkStatus {
    /// The next table to read starts at this frame.
    Continue(u64),
    /// The address maps to this physical address.
    Mapped(u64),
    /// An entry on the way is not present: the address is not mapped.
    Unmapped,
    /// A huge page was met.
    HugePage,
}

impl PageWalk {
    pub closed spec fn addr(&self) -> u64 {
        self.addr
    }

    /// The table level read next: 4 (the root) down to 1.
    pub closed spec fn level(&self) -> int {
        self.level as int
    }

    pub closed spec fn frame(&self) -> u64 {
        self.frame
    }

    /// A walk of `addr` starting at the root table in frame `root_frame`.
    pub fn new(addr: u64, root_frame: u64) -> (r: PageWalk)
        ensures
            r.addr() == addr,
            r.level() == 4,
            r.frame() == root_frame,
    {
        PageWalk { addr, level: 4, frame: root_frame }
    }

    /// Frame of the table to read next.
    pub fn table_frame(&self) -> (r: u64)
        ensures
            r == self.frame(),
    {
        self.frame
    }

    /// Index of the entry to read in that table.
    pub fn table_index(&self) -> (r: u64)
        requires
            1 <= self.level() <= 4,
        ensures
            r == table_index(self.addr(), self.level()),
            r < 512,
    {
        proof {
            reveal_with_fuel(pow512, 4);
        }
        let shift: u64 = match self.level {
            4 => 512 * 512 * 512,
            3 => 512 * 512,
            2 => 512,
            _ => 1,
        };
        self.addr / shift / 4096 % 512
    }

    /// Takes the entry read at the current level. A present entry leads to
    /// the next table, or at level 1 to the translated address: the frame
    /// plus the address's offset within its page.
    pub fn step(&mut self, entry: WalkEntry) -> (r: WalkStatus)
        requires
            1 <= old(self).level() <= 4,
            entry matches WalkEntry::Frame(f) ==> f % 4096 == 0,
        ensures
            final(self).addr() == old(self).addr(),
            entry == WalkEntry::NotPresent ==> r == WalkStatus::Unmapped,
            entry == WalkEntry::HugeFrame ==> r == WalkStatus::HugePage,
            entry matches WalkEntry::Frame(f) ==> {
                if old(self).level() == 1 {
                    r == WalkStatus::Mapped((f + old(self).addr() % 4096) as u64)
                } else {
                    r == WalkStatus::Continue(f) && final(self).frame() == f && final(self).level()
                        == old(self).level() - 1
                }
            },
    {
        match entry {
            WalkEntry::NotPresent => WalkStatus::Unmapped,
            WalkEntry::HugeFrame => WalkStatus::HugePage,
            WalkEntry::Frame(f) => {
                if self.level == 1 {
                    WalkStatus::Mapped(f + self.addr % 4096)
                } else {
                    self.level = self.level - 1;
                    self.frame = f;
                    WalkStatus::Continue(f)
                }
            },
        }
    }
}

} // verus!

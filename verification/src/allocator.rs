//! Heap allocation logic of the kernel, over addresses: requests of up to
//! 2048 bytes are served from per-size-class free lists (8 to 2048 bytes),
//! larger ones and empty classes from a first-fit list of free regions.
use vstd::prelude::*;

verus! {

/// Size of the kernel heap pool in bytes (100 KiB).
pub const HEAP_SIZE: usize = 100 * 1024;
/// Bytes taken by a free-region header (size and next pointer).
pub const NODE_SIZE: usize = 16;
/// Alignment of a free-region header.
pub const NODE_ALIGN: usize = 8;
/// Number of fixed block size classes.
pub const BLOCK_CLASSES: usize = 9;

/// Block size of class `i`: 8, 16, 32, ..., 2048 bytes.
pub open spec fn class_size(i: int) -> int {
    if i == 0 {
        8
    } else if i == 1 {
        16
    } else if i == 2 {
        32
    } else if i == 3 {
        64
    } else if i == 4 {
        128
    } else if i == 5 {
        256
    } else if i == 6 {
        512
    } else if i == 7 {
        1024
    } else {
        2048
    }
}

/// `addr` rounded up to a multiple of `align`.
pub open spec fn align_up_spec(addr: int, align: int) -> int {
    if addr % align == 0 { addr } else { addr - addr % align + align }
}

/// The first class from `i` on whose blocks hold `required` bytes.
pub open spec fn class_from(required: int, i: int) -> Option<int>
    decreases BLOCK_CLASSES - i,
{
    if i < 0 || i >= BLOCK_CLASSES {
        None
    } else if class_size(i) >= required {
        Some(i)
    } else {
        class_from(required, i + 1)
    }
}

/// The size class serving a request: the smallest block that covers both
/// its size and its alignment, or none beyond 2048 bytes.
pub open spec fn class_of(size: int, align: int) -> Option<int> {
    class_from(if size >= align { size } else { align }, 0)
}

/// Where the rest of a region begins once a request ending at `end` was
/// carved from it: the next address where a region header may sit.
pub open spec fn rest_start(end: int) -> int {
    align_up_spec(end, NODE_ALIGN as int)
}

/// Where a request would start inside a free region (start, size): the
/// region's start rounded up to the alignment, provided the request ends
/// inside the region and leaves either nothing or, from the next
/// header-aligned address on, room for a region header.
pub open spec fn region_fit(region: (usize, usize), size: int, align: int) -> Option<int> {
    let a = align_up_spec(region.0 as int, align);
    let end = a + size;
    let region_end = region.0 + region.1;
    if end > usize::MAX || end > region_end {
        None
    } else if end < region_end && region_end - rest_start(end) < NODE_SIZE {
        None
    } else {
        Some(a)
    }
}

/// The first free region that fits the request.
pub open spec fn first_fit(regions: Seq<(usize, usize)>, size: int, align: int) -> Option<int>
    decreases regions.len(),
{
    if regions.len() == 0 {
        None
    } else if region_fit(regions[0], size, align) is Some {
        Some(0)
    } else {
        match first_fit(regions.drop_first(), size, align) {
            Some(i) => Some(i + 1),
            None => None,
        }
    }
}

/// Whether rounding the start of a region up to `align` stays within usize.
pub open spec fn align_fits(region: (usize, usize), align: int) -> bool {
    region.0 - (region.0 as int) % align + align <= usize::MAX
}

/// Whether every region examined by the first-fit scan can be rounded up.
pub open spec fn scan_safe(regions: Seq<(usize, usize)>, size: int, align: int) -> bool
    decreases regions.len(),
{
    regions.len() == 0 || (align_fits(regions[0], align) && (region_fit(regions[0], size, align) is Some
        || scan_safe(regions.drop_first(), size, align)))
}

/// Free regions and address after carving a request from the first region
/// that fits: the rest of that region, if any, becomes the first free
/// region from the next header-aligned address on; without a fitting
/// region nothing changes and the address is 0.
pub open spec fn carved(regions: Seq<(usize, usize)>, size: int, align: int) -> (Seq<(usize, usize)>, int) {
    match first_fit(regions, size, align) {
        None => (regions, 0),
        Some(i) => {
            let r = regions[i];
            let a = align_up_spec(r.0 as int, align);
            let end = a + size;
            let rest = regions.remove(i);
            if end < r.0 + r.1 {
                (seq![(rest_start(end) as usize, (r.0 + r.1 - rest_start(end)) as usize)] + rest, a)
            } else {
                (rest, a)
            }
        },
    }
}

/// A free region that can hold its header: aligned, large enough, and
/// ending within the address space.
pub open spec fn region_ok(region: (usize, usize)) -> bool {
    &&& region.0 % NODE_ALIGN == 0
    &&& region.1 >= NODE_SIZE
    &&& region.0 + region.1 <= usize::MAX
}

/// The allocator as plain values: the free blocks of each class (the next
/// one to hand out last) and the free regions in list order.
pub struct AllocView {
    pub lists: Seq<Seq<usize>>,
    pub regions: Seq<(usize, usize)>,
}

/// Whether serving a request cannot overflow while rounding a region's
/// start up to the alignment.
pub open spec fn alloc_ok(v: AllocView, size: int, align: int) -> bool {
    match class_of(size, align) {
        Some(i) => v.lists[i].len() > 0 || scan_safe(v.regions, class_size(i), class_size(i)),
        None => scan_safe(v.regions, size, align),
    }
}

/// State and address after an allocation: the last free block of the
/// request's class, else a block of the class size carved from the free
/// regions; requests beyond the classes are carved directly. Address 0
/// means out of memory.
pub open spec fn alloc_spec(v: AllocView, size: int, align: int) -> (AllocView, int) {
    match class_of(size, align) {
        Some(i) => if v.lists[i].len() > 0 {
            (AllocView { lists: v.lists.update(i, v.lists[i].drop_last()), ..v }, v.lists[i].last() as int)
        } else {
            let (rg, p) = carved(v.regions, class_size(i), class_size(i));
            (AllocView { regions: rg, ..v }, p)
        },
        None => {
            let (rg, p) = carved(v.regions, size, align);
            (AllocView { regions: rg, ..v }, p)
        },
    }
}

/// State after freeing `ptr`: it goes onto its class's list, or becomes the
/// first free region when the request was beyond the classes.
pub open spec fn dealloc_spec(v: AllocView, ptr: usize, size: usize, align: usize) -> AllocView {
    match class_of(size as int, align as int) {
        Some(i) => AllocView { lists: v.lists.update(i, v.lists[i].push(ptr)), ..v },
        None => AllocView { regions: seq![(ptr, size)] + v.regions, ..v },
    }
}

/// Freeing a block and asking again for the same layout gives the same
/// block back and leaves the allocator as it was.
pub proof fn lemma_alloc_after_dealloc(v: AllocView, ptr: usize, size: usize, align: usize)
    requires
        v.lists.len() == BLOCK_CLASSES,
        class_of(size as int, align as int) is Some,
    ensures
        alloc_spec(dealloc_spec(v, ptr, size, align), size as int, align as int) == (v, ptr as int),
{
    lemma_class_range(if size >= align { size as int } else { align as int }, 0);
    let i = class_of(size as int, align as int)->0;
    assert(v.lists.update(i, v.lists[i].push(ptr)).update(i, v.lists[i].push(ptr).drop_last()) =~= v.lists) by {
        assert(v.lists[i].push(ptr).drop_last() =~= v.lists[i]);
    }
}

proof fn lemma_class_range(required: int, i: int)
    ensures
        class_from(required, i) matches Some(c) ==> 0 <= c < BLOCK_CLASSES && class_size(c) >= required,
    decreases BLOCK_CLASSES - i,
{
    if 0 <= i < BLOCK_CLASSES && class_size(i) < required {
        lemma_class_range(required, i + 1);
    }
}

proof fn lemma_first_fit(regions: Seq<(usize, usize)>, size: int, align: int)
    ensures
        first_fit(regions, size, align) matches Some(i) ==> 0 <= i < regions.len() && region_fit(
            regions[i],
            size,
            align,
        ) is Some,
    decreases regions.len(),
{
    if regions.len() > 0 && region_fit(regions[0], size, align) is None {
        lemma_first_fit(regions.drop_first(), size, align);
    }
}

proof fn lemma_align_up(addr: int, align: int)
    requires
        0 <= addr,
        0 < align,
    ensures
        align_up_spec(addr, align) % align == 0,
        addr <= align_up_spec(addr, align) < addr + align,
{
    if addr % align != 0 {
        assert((addr - addr % align + align) % align == 0) by (nonlinear_arith)
            requires
                0 < align,
                0 <= addr,
        {
            vstd::arithmetic::div_mod::lemma_fundamental_div_mod(addr, align);
            vstd::arithmetic::div_mod::lemma_mod_multiples_basic(addr / align + 1, align);
        }
    }
}

/// A block carved for a request lies inside the free region it came from,
/// starts at a multiple of the alignment, and the rest of the region begins
/// at the first header-aligned address after it and can hold a header.
pub proof fn lemma_carved_block(regions: Seq<(usize, usize)>, size: int, align: int)
    requires
        size > 0,
        align > 0,
        first_fit(regions, size, align) is Some,
    ensures
        ({
            let i = first_fit(regions, size, align)->0;
            let r = regions[i];
            let (rest, p) = carved(regions, size, align);
            &&& 0 <= i < regions.len()
            &&& p % align == 0
            &&& r.0 <= p
            &&& p + size <= r.0 + r.1
            &&& p + size < r.0 + r.1 ==> {
                let t = rest_start(p + size);
                &&& rest[0] == (t as usize, (r.0 + r.1 - t) as usize)
                &&& t % (NODE_ALIGN as int) == 0
                &&& p + size <= t < p + size + NODE_ALIGN
                &&& t + NODE_SIZE <= r.0 + r.1
            }
        }),
{
    lemma_first_fit(regions, size, align);
    let i = first_fit(regions, size, align)->0;
    lemma_align_up(regions[i].0 as int, align);
    let p = align_up_spec(regions[i].0 as int, align);
    lemma_align_up(p + size, NODE_ALIGN as int);
}


/// Block size of class `index`.
fn block_size(index: usize) -> (r: usize)
    requires
        index < BLOCK_CLASSES,
    ensures
        r == class_size(index as int),
{
    if index == 0 {
        8
    } else if index == 1 {
        16
    } else if index == 2 {
        32
    } else if index == 3 {
        64
    } else if index == 4 {
        128
    } else if index == 5 {
        256
    } else if index == 6 {
        512
    } else if index == 7 {
        1024
    } else {
        2048
    }
}

/// `addr` rounded up to a multiple of `align`.
fn align_up(addr: usize, align: usize) -> (r: usize)
    requires
        align > 0,
        addr - addr % align + align <= usize::MAX,
    ensures
        r == align_up_spec(addr as int, align as int),
{
    let remainder = addr % align;
    if remainder == 0 {
        addr
    } else {
        assert(addr % align <= addr) by (nonlinear_arith)
            requires
                align > 0,
        ;
        let base = addr - remainder;
        base + align
    }
}

/// The size class serving a request of `size` bytes aligned to `align`.
fn list_index(size: usize, align: usize) -> (r: Option<usize>)
    ensures
        match class_of(size as int, align as int) {
            Some(i) => r == Some(i as usize),
            None => r is None,
        },
{
    let required = if size >= align { size } else { align };
    assert(class_of(size as int, align as int) == class_from(required as int, 0));
    let mut i: usize = 0;
    while i < BLOCK_CLASSES
        invariant
            i <= BLOCK_CLASSES,
            class_of(size as int, align as int) == class_from(required as int, 0),
            class_from(required as int, 0) == class_from(required as int, i as int),
        decreases BLOCK_CLASSES - i,
    {
        if block_size(i) >= required {
            assert(class_from(required as int, i as int) == Some(i as int));
            return Some(i);
        }
        i = i + 1;
    }
    None
}

/// The free regions behind the size classes, first region first.
struct FallbackAllocator {
    regions: Vec<(usize, usize)>,
}

impl FallbackAllocator {
    spec fn wf(&self) -> bool {
        forall|i: int| 0 <= i < self.regions@.len() ==> region_ok(#[trigger] self.regions@[i])
    }

    fn new() -> (r: Self)
        ensures
            r.regions@.len() == 0,
    {
        FallbackAllocator { regions: Vec::new() }
    }

    /// Puts the region (addr, size) first in the list.
    fn add_free_region(&mut self, addr: usize, size: usize)
        requires
            old(self).wf(),
            region_ok((addr, size)),
        ensures
            final(self).wf(),
            final(self).regions@ == seq![(addr, size)] + old(self).regions@,
    {
        self.regions.insert(0, (addr, size));
        assert(self.regions@ =~= seq![(addr, size)] + old(self).regions@);
    }

    /// Where a request would start inside `region`, if it fits.
    fn alloc_from_region(&self, region: (usize, usize), size: usize, align: usize) -> (r: Result<usize, ()>)
        requires
            region_ok(region),
            align > 0,
            align_fits(region, align as int),
        ensures
            match region_fit(region, size as int, align as int) {
                Some(a) => r == Ok::<usize, ()>(a as usize),
                None => r is Err,
            },
    {
        let alloc_start = align_up(region.0, align);
        let alloc_end = match alloc_start.checked_add(size) {
            Some(e) => e,
            None => {
                return Err(());
            },
        };
        let region_end = region.0 + region.1;
        if alloc_end > region_end {
            return Err(());
        }
        let excess_size = region_end - alloc_end;
        let pad = if alloc_end % NODE_ALIGN == 0 { 0 } else { NODE_ALIGN - alloc_end % NODE_ALIGN };
        proof {
            lemma_align_up(alloc_end as int, NODE_ALIGN as int);
        }
        assert(rest_start(alloc_end as int) == alloc_end + pad);
        if excess_size > 0 && excess_size < pad + NODE_SIZE {
            return Err(());
        }
        Ok(alloc_start)
    }

    /// Whether the first-fit scan for the request can round every region
    /// it examines up to the alignment (see `scan_safe`).
    fn scan_is_safe(&self, size: usize, align: usize) -> (r: bool)
        requires
            self.wf(),
            align > 0,
        ensures
            r == scan_safe(self.regions@, size as int, align as int),
    {
        let ghost rs = self.regions@;
        let mut i: usize = 0;
        assert(rs.skip(0) =~= rs);
        while i < self.regions.len()
            invariant
                self.regions@ == rs,
                self.wf(),
                align > 0,
                i <= rs.len(),
                scan_safe(rs, size as int, align as int) == scan_safe(rs.skip(i as int), size as int, align as int),
            decreases rs.len() - i,
        {
            let region = self.regions[i];
            assert(rs.skip(i as int)[0] == region);
            assert(rs.skip(i as int).drop_first() =~= rs.skip(i + 1));
            assert(region.0 % align <= region.0) by (nonlinear_arith)
                requires
                    align > 0,
            ;
            if region.0 - region.0 % align > usize::MAX - align {
                return false;
            }
            if self.alloc_from_region(region, size, align).is_ok() {
                return true;
            }
            i = i + 1;
        }
        assert(rs.skip(i as int) =~= Seq::<(usize, usize)>::empty());
        true
    }

    /// Takes the first region that fits out of the list, with the start of
    /// the request inside it.
    fn find_region(&mut self, size: usize, align: usize) -> (r: Option<((usize, usize), usize)>)
        requires
            old(self).wf(),
            align > 0,
            scan_safe(old(self).regions@, size as int, align as int),
        ensures
            final(self).wf(),
            match first_fit(old(self).regions@, size as int, align as int) {
                Some(i) => r == Some((old(self).regions@[i], align_up_spec(old(self).regions@[i].0 as int, align as int) as usize))
                    && final(self).regions@ == old(self).regions@.remove(i),
                None => r is None && final(self).regions@ == old(self).regions@,
            },
    {
        let ghost rs = self.regions@;
        let mut i: usize = 0;
        assert(rs.skip(0) =~= rs);
        while i < self.regions.len()
            invariant
                self.regions@ == rs,
                rs == old(self).regions@,
                self.wf(),
                align > 0,
                i <= rs.len(),
                scan_safe(rs.skip(i as int), size as int, align as int),
                first_fit(rs, size as int, align as int) == match first_fit(rs.skip(i as int), size as int, align as int) {
                    Some(j) => Some(j + i),
                    None => None,
                },
            decreases rs.len() - i,
        {
            let region = self.regions[i];
            assert(rs.skip(i as int)[0] == region);
            assert(rs.skip(i as int).drop_first() =~= rs.skip(i + 1));
            match self.alloc_from_region(region, size, align) {
                Ok(start) => {
                    assert(first_fit(rs.skip(i as int), size as int, align as int) == Some(0int));
                    assert(first_fit(rs, size as int, align as int) == Some(i as int));
                    self.regions.remove(i);
                    assert forall|k: int| 0 <= k < self.regions@.len() implies region_ok(#[trigger] self.regions@[k]) by {
                        if k < i {
                            assert(self.regions@[k] == rs[k]);
                        } else {
                            assert(self.regions@[k] == rs[k + 1]);
                        }
                    }
                    return Some((region, start));
                },
                Err(_) => {},
            }
            i = i + 1;
        }
        assert(rs.skip(i as int) =~= Seq::<(usize, usize)>::empty());
        None
    }
}

/// The kernel heap allocator: a free list per size class and the free
/// regions behind them.
pub struct FixedSizeBlockAllocator {
    list_heads: Vec<Vec<usize>>,
    fallback: FallbackAllocator,
}

impl FixedSizeBlockAllocator {
    /// The allocator as plain values.
    pub closed spec fn view(&self) -> AllocView {
        AllocView { lists: self.list_heads@.map_values(|l: Vec<usize>| l@), regions: self.fallback.regions@ }
    }

    /// One list per class and well-formed free regions.
    pub closed spec fn wf(&self) -> bool {
        &&& self.list_heads@.len() == BLOCK_CLASSES
        &&& self.fallback.wf()
    }

    /// An allocator with empty lists and no free region.
    pub fn new() -> (r: Self)
        ensures
            r.wf(),
            r@.lists == Seq::new(BLOCK_CLASSES as nat, |i: int| Seq::<usize>::empty()),
            r@.regions.len() == 0,
    {
        let mut list_heads: Vec<Vec<usize>> = Vec::new();
        let mut i: usize = 0;
        while i < BLOCK_CLASSES
            invariant
                i <= BLOCK_CLASSES,
                list_heads@.len() == i,
                forall|k: int| 0 <= k < i ==> (#[trigger] list_heads@[k])@.len() == 0,
            decreases BLOCK_CLASSES - i,
        {
            list_heads.push(Vec::new());
            i = i + 1;
        }
        let r = FixedSizeBlockAllocator { list_heads, fallback: FallbackAllocator::new() };
        assert forall|k: int| 0 <= k < BLOCK_CLASSES implies #[trigger] r@.lists[k] == Seq::<usize>::empty() by {
            assert(r.list_heads@[k]@ =~= Seq::<usize>::empty());
        }
        assert(r@.lists =~= Seq::new(BLOCK_CLASSES as nat, |i: int| Seq::<usize>::empty()));
        r
    }

    /// Hands the heap [heap_start, heap_start + heap_size) to the allocator
    /// as its first free region.
    pub fn init(&mut self, heap_start: usize, heap_size: usize)
        requires
            old(self).wf(),
            region_ok((heap_start, heap_size)),
        ensures
            final(self).wf(),
            final(self)@ == (AllocView { regions: seq![(heap_start, heap_size)] + old(self)@.regions, ..old(self)@ }),
    {
        self.fallback.add_free_region(heap_start, heap_size);
    }

    /// Carves a request from the free regions; 0 when none fits.
    fn fallback_alloc(&mut self, size: usize, align: usize) -> (r: usize)
        requires
            old(self).wf(),
            size > 0,
            align > 0,
            scan_safe(old(self)@.regions, size as int, align as int),
        ensures
            final(self).wf(),
            final(self)@.lists == old(self)@.lists,
            (final(self)@.regions, r as int) == carved(old(self)@.regions, size as int, align as int),
    {
        let ghost rs = self.fallback.regions@;
        proof {
            lemma_first_fit(rs, size as int, align as int);
        }
        match self.fallback.find_region(size, align) {
            Some((region, alloc_start)) => {
                proof {
                    lemma_carved_block(rs, size as int, align as int);
                }
                let alloc_end = alloc_start + size;
                let region_end = region.0 + region.1;
                if alloc_end < region_end {
                    let pad = if alloc_end % NODE_ALIGN == 0 { 0 } else { NODE_ALIGN - alloc_end % NODE_ALIGN };
                    proof {
                        lemma_align_up(alloc_end as int, NODE_ALIGN as int);
                    }
                    let rest = alloc_end + pad;
                    self.fallback.add_free_region(rest, region_end - rest);
                }
                alloc_start
            },
            None => 0,
        }
    }

    /// Whether a request can be served without an arithmetic overflow or a
    /// misplaced region header (see `alloc_ok`).
    pub fn allocation_safe(&self, size: usize, align: usize) -> (r: bool)
        requires
            self.wf(),
            align > 0,
        ensures
            r == alloc_ok(self@, size as int, align as int),
    {
        proof {
            lemma_class_range(if size >= align { size as int } else { align as int }, 0);
        }
        match list_index(size, align) {
            Some(index) => {
                let block = block_size(index);
                self.list_heads[index].len() > 0 || self.fallback.scan_is_safe(block, block)
            },
            None => self.fallback.scan_is_safe(size, align),
        }
    }

    /// Allocates `size` bytes aligned to `align`; 0 when memory is exhausted.
    pub fn allocate(&mut self, size: usize, align: usize) -> (r: usize)
        requires
            old(self).wf(),
            size > 0,
            align > 0,
            alloc_ok(old(self)@, size as int, align as int),
        ensures
            final(self).wf(),
            (final(self)@, r as int) == alloc_spec(old(self)@, size as int, align as int),
    {
        proof {
            lemma_class_range(if size >= align { size as int } else { align as int }, 0);
        }
        match list_index(size, align) {
            Some(index) => {
                let mut list = self.list_heads.remove(index);
                let ghost lists0 = self.list_heads@;
                if list.len() > 0 {
                    let head = list.pop().unwrap();
                    self.list_heads.insert(index, list);
                    assert(self@.lists =~= old(self)@.lists.update(index as int, old(self)@.lists[index as int].drop_last()));
                    head
                } else {
                    self.list_heads.insert(index, list);
                    assert(self.list_heads@ =~= old(self).list_heads@);
                    let block = block_size(index);
                    self.fallback_alloc(block, block)
                }
            },
            None => self.fallback_alloc(size, align),
        }
    }

    /// Frees the block at `ptr` of a request of `size` bytes aligned to `align`.
    pub fn deallocate(&mut self, ptr: usize, size: usize, align: usize)
        requires
            old(self).wf(),
            class_of(size as int, align as int) is None ==> region_ok((ptr, size)),
        ensures
            final(self).wf(),
            final(self)@ == dealloc_spec(old(self)@, ptr, size, align),
    {
        proof {
            lemma_class_range(if size >= align { size as int } else { align as int }, 0);
        }
        match list_index(size, align) {
            Some(index) => {
                let mut list = self.list_heads.remove(index);
                list.push(ptr);
                self.list_heads.insert(index, list);
                assert(self@.lists =~= old(self)@.lists.update(index as int, old(self)@.lists[index as int].push(ptr)));
            },
            None => {
                self.fallback.add_free_region(ptr, size);
            },
        }
    }
}

} // verus!

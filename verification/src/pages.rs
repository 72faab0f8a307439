//! The page allocator: a stack of free 4 KiB pages, by address.
use vstd::prelude::*;

verus! {

/// Size of a page, in bytes.
pub const PAGE_SIZE: usize = 4096;

/// `x` rounded up to a multiple of `PAGE_SIZE`.
pub open spec fn round_up(x: int) -> int {
    ((x + 4095) / 4096) * 4096
}

/// The pages from `start` up that fit below `end`, in address order.
pub open spec fn pages_between(start: int, end: int) -> Seq<usize> {
    let n = if end >= start { (end - start) / 4096 } else { 0 };
    Seq::new(n as nat, |i: int| (start + i * 4096) as usize)
}

/// The free pages; the last one is handed out first.
pub struct PageAllocator {
    free: Vec<usize>,
}

impl View for PageAllocator {
    type V = Seq<usize>;

    closed spec fn view(&self) -> Seq<usize> {
        self.free@
    }
}

impl PageAllocator {
    /// An allocator holding every whole page between `heap_start` (rounded
    /// up to a page boundary) and `heap_end`.
    pub fn init(heap_start: usize, heap_end: usize) -> (a: Self)
        requires
            heap_start + 4095 <= usize::MAX,
        ensures
            a@ == pages_between(round_up(heap_start as int), heap_end as int),
    {
        let x = heap_start + (PAGE_SIZE - 1);
        let mask: usize = !(PAGE_SIZE - 1);
        let start = x & mask;
        assert(start == (x / 4096) * 4096) by (bit_vector)
            requires
                mask == !4095usize,
                start == x & mask,
        ;
        let mut a = PageAllocator { free: Vec::new() };
        let mut addr = start;
        let ghost pages = pages_between(start as int, heap_end as int);
        while addr <= heap_end && heap_end - addr >= PAGE_SIZE
            invariant
                start <= addr,
                (addr - start) % 4096 == 0,
                pages == pages_between(start as int, heap_end as int),
                addr <= heap_end ==> a.free@.len() == (addr - start) / 4096,
                addr > heap_end ==> addr == start,
                a.free@.len() <= pages.len(),
                forall|i: int| 0 <= i < a.free@.len() ==> #[trigger] a.free@[i] == pages[i],
            decreases heap_end - addr,
        {
            let ghost k = a.free@.len();
            a.free_page(addr);
            addr = addr + PAGE_SIZE;
            assert(a.free@.len() == k + 1);
        }
        assert(a.free@ =~= pages);
        a
    }

    /// Take a free page: the most recently freed one; `None` when none is
    /// left.
    pub fn alloc_page(&mut self) -> (r: Option<usize>)
        ensures
            old(self)@.len() == 0 ==> r is None && final(self)@ == old(self)@,
            old(self)@.len() > 0 ==> r == Some(old(self)@.last()) && final(self)@ == old(self)@.drop_last(),
    {
        self.free.pop()
    }

    /// Give back page `p`.
    pub fn free_page(&mut self, p: usize)
        ensures
            final(self)@ == old(self)@.push(p),
    {
        self.free.push(p);
    }

    /// The number of free pages.
    pub fn free_count(&self) -> (n: usize)
        ensures
            n == self@.len(),
    {
        self.free.len()
    }
}

/// Freeing a page and allocating again gives that page back and leaves
/// the free pages as they were.
pub proof fn law_free_then_alloc(free: Seq<usize>, p: usize)
    ensures
        free.push(p).len() > 0,
        free.push(p).last() == p,
        free.push(p).drop_last() == free,
{
    assert(free.push(p).drop_last() =~= free);
}

/// Set-up yields one page for each whole page between the rounded-up start
/// and the end, each on a page boundary and inside the heap.
pub proof fn law_init_pages(start: usize, end: usize)
    requires
        start + 4095 <= usize::MAX,
    ensures
        forall|i: int| 0 <= i < pages_between(round_up(start as int), end as int).len() ==> {
            let a = #[trigger] pages_between(round_up(start as int), end as int)[i];
            &&& a % 4096 == 0
            &&& start <= a
            &&& a + 4096 <= end
        },
{
    let r = round_up(start as int);
    assert(r % 4096 == 0 && r >= start) by (nonlinear_arith)
        requires
            r == ((start + 4095) / 4096) * 4096,
    ;
    assert forall|i: int| 0 <= i < pages_between(r, end as int).len() implies {
        let a = #[trigger] pages_between(r, end as int)[i];
        &&& a % 4096 == 0
        &&& start <= a
        &&& a + 4096 <= end
    } by {
        let n = (end - r) / 4096;
        assert(r + i * 4096 + 4096 <= end) by (nonlinear_arith)
            requires
                0 <= i < n,
                n == (end - r) / 4096,
                end >= r,
        ;
        assert((r + i * 4096) % 4096 == 0) by (nonlinear_arith)
            requires
                r % 4096 == 0,
                i >= 0,
        ;
    }
}

/// Set-up lists each page once, so that, as long as only pages handed out
/// are given back, no page is handed out twice at a time.
pub proof fn law_init_distinct(start: usize, end: usize)
    ensures
        pages_between(round_up(start as int), end as int).no_duplicates(),
{
    let r = round_up(start as int);
    let ps = pages_between(r, end as int);
    assert forall|a: int, b: int| 0 <= a < ps.len() && 0 <= b < ps.len() && a != b implies ps[a] != ps[b] by {
        let n = ps.len();
        assert(r + a * 4096 != r + b * 4096) by (nonlinear_arith)
            requires
                a != b,
        ;
        assert(0 <= r + a * 4096 <= usize::MAX && 0 <= r + b * 4096 <= usize::MAX) by (nonlinear_arith)
            requires
                0 <= a < n,
                0 <= b < n,
                n == (if end >= r { (end - r) / 4096 } else { 0 }),
                r >= 0,
                end <= usize::MAX,
        ;
    }
}

/// Handing out a page from a list without repeats leaves that page off
/// the list.
pub proof fn law_alloc_removes(free: Seq<usize>)
    requires
        free.len() > 0,
        free.no_duplicates(),
    ensures
        !free.drop_last().contains(free.last()),
        free.drop_last().no_duplicates(),
{
    assert forall|i: int| 0 <= i < free.drop_last().len() implies free.drop_last()[i] != free.last() by {
        assert(free.drop_last()[i] == free[i]);
    }
}

} // verus!

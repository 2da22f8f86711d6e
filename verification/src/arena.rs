use vstd::prelude::*;

use vstd::arithmetic::div_mod::{
    lemma_div_by_multiple, lemma_div_is_ordered, lemma_fundamental_div_mod,
    lemma_mod_multiples_basic,
};
use vstd::arithmetic::mul::{lemma_mul_inequality, lemma_mul_is_distributive_add};

verus! {

/// The host-memory arena: it reserves page-aligned buffers, records each as a
/// `(address, size)` pair, and owns every buffer it handed out for its whole
/// lifetime. The records are handles into the arena's own address line (one
/// 4096-byte slot per page), so a returned address never overlaps an earlier
/// one; all buffers are released together, exactly once, when the arena is
/// dropped or torn down, never one by one.
pub struct Allocator {
    pages: Vec<(usize, usize)>,
    buffers: Vec<Vec<u8>>,
    next_page: usize,
}

impl Allocator {
    /// The `(address, size)` records of every allocation made so far, oldest
    /// first.
    pub closed spec fn records(&self) -> Seq<(usize, usize)> {
        self.pages@
    }

    /// The first free 4096-byte slot of the arena's address line.
    pub closed spec fn spec_next_page(&self) -> int {
        self.next_page as int
    }

    /// Internal invariant: one owned buffer of the recorded size per record,
    /// and every record page-aligned, non-null and below the next free slot.
    pub closed spec fn wf(&self) -> bool {
        &&& self.buffers@.len() == self.pages@.len()
        &&& 1 <= self.next_page
        &&& forall|i: int|
            0 <= i < self.pages@.len() ==> {
                let p = #[trigger] self.pages@[i];
                &&& self.buffers@[i]@.len() == p.1
                &&& p.0 % 4096 == 0
                &&& p.0 >= 4096
                &&& p.0 + p.1 <= self.spec_next_page() * 4096
            }
    }

    /// Whether an allocation of `size` bytes still fits the address line.
    pub open spec fn can_allocate(&self, size: usize) -> bool {
        &&& size + 4095 <= usize::MAX
        &&& (self.spec_next_page() + (size + 4095) / 4096) * 4096 <= usize::MAX
    }

    /// An empty arena, tracking no allocations.
    pub fn new() -> (r: Self)
        ensures
            r.wf(),
            r.records() =~= Seq::<(usize, usize)>::empty(),
            r.spec_next_page() == 1,
    {
        Allocator { pages: Vec::new(), buffers: Vec::new(), next_page: 1 }
    }

    /// Reserves a page-aligned buffer of `size` bytes, records it for release
    /// on teardown, and returns its address: a fresh page-aligned handle that
    /// overlaps no earlier allocation.
    pub fn allocate_physical_memory(&mut self, size: usize) -> (addr: usize)
        requires
            old(self).wf(),
            0 < size,
            old(self).can_allocate(size),
        ensures
            final(self).wf(),
            addr % 4096 == 0,
            addr >= 4096,
            addr == old(self).spec_next_page() * 4096,
            final(self).records() == old(self).records().push((addr, size)),
            final(self).spec_next_page() == old(self).spec_next_page() + (size + 4095) / 4096,
            forall|i: int|
                0 <= i < old(self).records().len() ==> (#[trigger] old(self).records()[i]).0 + old(
                    self,
                ).records()[i].1 <= addr,
    {
        let pages_needed: usize = (size + 4095) / 4096;
        proof {
            lemma_fundamental_div_mod(size + 4095, 4096);
            assert(1 <= pages_needed);
            assert(size <= pages_needed * 4096);
            lemma_mul_inequality(
                self.spec_next_page(),
                self.spec_next_page() + pages_needed,
                4096,
            );
            lemma_mul_is_distributive_add(4096, self.spec_next_page(), pages_needed as int);
            lemma_mod_multiples_basic(self.spec_next_page(), 4096);
        }
        let addr: usize = self.next_page * 4096;
        let mut buf: Vec<u8> = Vec::new();
        let mut i: usize = 0;
        while i < size
            invariant
                i <= size,
                buf@.len() == i,
            decreases size - i,
        {
            buf.push(0u8);
            i = i + 1;
        }
        self.buffers.push(buf);
        self.pages.push((addr, size));
        self.next_page = self.next_page + pages_needed;
        proof {
            lemma_mul_inequality(
                old(self).spec_next_page(),
                self.spec_next_page(),
                4096,
            );
            lemma_mul_is_distributive_add(
                4096,
                old(self).spec_next_page(),
                pages_needed as int,
            );
            assert forall|j: int| 0 <= j < self.pages@.len() implies {
                let p = #[trigger] self.pages@[j];
                &&& self.buffers@[j]@.len() == p.1
                &&& p.0 % 4096 == 0
                &&& p.0 >= 4096
                &&& p.0 + p.1 <= self.spec_next_page() * 4096
            } by {
                if j < self.pages@.len() - 1 {
                    assert(old(self).pages@[j] == self.pages@[j]);
                }
            }
        }
        addr
    }

    /// Whether an allocation of `size` bytes still fits the address line:
    /// the runnable test of `allocate_physical_memory`'s precondition.
    pub fn fits(&self, size: usize) -> (b: bool)
        ensures
            b == self.can_allocate(size),
    {
        if size > usize::MAX - 4095 {
            proof {
                assert(!self.can_allocate(size));
            }
            return false;
        }
        let pages_needed: usize = (size + 4095) / 4096;
        let limit: usize = usize::MAX / 4096;
        let b = self.next_page <= limit && pages_needed <= limit - self.next_page;
        proof {
            let a = self.spec_next_page() + pages_needed;
            lemma_div_is_ordered(4096, usize::MAX as int, 4096);
            if a <= limit {
                lemma_mul_inequality(a, limit as int, 4096);
                lemma_fundamental_div_mod(usize::MAX as int, 4096);
                assert(limit * 4096 <= usize::MAX);
            }
            if a * 4096 <= usize::MAX {
                lemma_div_is_ordered(a * 4096, usize::MAX as int, 4096);
                lemma_div_by_multiple(a, 4096);
            }
        }
        b
    }

    /// How many allocations the arena tracks.
    pub fn allocation_count(&self) -> (n: usize)
        ensures
            n == self.records().len(),
    {
        self.pages.len()
    }

    /// Tears the arena down, consuming it: every tracked buffer is released
    /// together, exactly once, by ownership, and no previously returned
    /// address can be used through the arena afterwards. Returns how many
    /// buffers were released.
    pub fn release(self) -> (n: usize)
        ensures
            n == self.records().len(),
    {
        self.pages.len()
    }
}

} // verus!

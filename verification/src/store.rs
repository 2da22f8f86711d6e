use vstd::prelude::*;

use crate::errors::VirtMemError;
use crate::paging::{lemma_page_base_idem, page_off, spec_page_base, Gpa};
use crate::space::{
    lemma_write_gpa_preserves_wf, mem_wf, spec_splice, X64VirtualAddressSpace,
};
use fnv::FnvHasher;
use std::collections::HashMap;
use std::hash::BuildHasherDefault;

verus! {

/// A sparse mapping from page-aligned guest physical base address to one
/// 4096-byte page, hashed with fnv's fast 64-bit hasher. The collection
/// itself comes from std with fnv's hasher, so verified code sees it only
/// through `page_map_view` and the trusted operations below.
#[verifier::external_body]
pub struct PageMap {
    map: HashMap<u64, Vec<u8>, BuildHasherDefault<FnvHasher>>,
}

/// The contents of a `PageMap`: base address to page bytes.
pub uninterp spec fn page_map_view(m: PageMap) -> Map<u64, Seq<u8>>;

/// Relies on HashMap::default (std's hash map built with fnv's `FnvHasher`):
/// a fresh map holds nothing.
#[verifier::external_body]
fn page_map_new() -> (r: PageMap)
    ensures
        page_map_view(r) =~= Map::empty(),
{
    PageMap { map: HashMap::default() }
}

/// Relies on HashMap::insert: afterwards the map holds `page` at `base`,
/// replacing any earlier page there, and is otherwise unchanged.
#[verifier::external_body]
fn page_map_insert(m: &mut PageMap, base: u64, page: Vec<u8>)
    ensures
        page_map_view(*final(m)) == page_map_view(*old(m)).insert(base, page@),
{
    m.map.insert(base, page);
}

/// Relies on HashMap::remove: afterwards the map holds nothing at `base` and
/// is otherwise unchanged.
#[verifier::external_body]
fn page_map_remove(m: &mut PageMap, base: u64)
    ensures
        page_map_view(*final(m)) == page_map_view(*old(m)).remove(base),
{
    m.map.remove(&base);
}

/// Relies on HashMap::get: returns a copy of the page at `base`, if the map
/// holds one.
#[verifier::external_body]
fn page_map_get(m: &PageMap, base: u64) -> (r: Option<Vec<u8>>)
    ensures
        match r {
            Some(p) => page_map_view(*m).contains_key(base) && p@ == page_map_view(*m)[base],
            None => !page_map_view(*m).contains_key(base),
        },
{
    m.map.get(&base).cloned()
}

/// Copies a fixed 4096-byte page into a vector.
fn page_to_vec(page: &[u8; 4096]) -> (v: Vec<u8>)
    ensures
        v@ == page@,
{
    let mut v: Vec<u8> = Vec::new();
    let mut i: usize = 0;
    while i < 4096
        invariant
            i <= 4096,
            v@ =~= page@.subrange(0, i as int),
        decreases 4096 - i,
    {
        v.push(page[i]);
        i = i + 1;
    }
    proof {
        assert(v@ =~= page@);
    }
    v
}

/// The guest physical memory store: a concrete backing for the physical
/// read/write primitives over a sparse collection of 4096-byte pages, each
/// keyed by its page-aligned base address. Pages are inserted and removed
/// only by the surrounding collaborator; translation never adds or drops one.
pub struct GpaManager {
    pages: PageMap,
}

impl GpaManager {
    /// An empty store.
    pub fn new() -> (r: Self)
        ensures
            r.inv(),
            r.mem() == Map::<u64, Seq<u8>>::empty(),
    {
        let r = GpaManager { pages: page_map_new() };
        proof {
            assert(mem_wf(r.mem()));
        }
        r
    }

    /// Inserts the full page holding `gpa`, keyed by its page-aligned base,
    /// silently replacing any page already there.
    pub fn add_page(&mut self, gpa: Gpa, page: [u8; 4096])
        requires
            old(self).inv(),
        ensures
            final(self).inv(),
            final(self).mem() == old(self).mem().insert(spec_page_base(gpa), page@),
    {
        let (base, _) = page_off(gpa);
        let v = page_to_vec(&page);
        page_map_insert(&mut self.pages, base, v);
        proof {
            lemma_page_base_idem(gpa);
            assert forall|b: u64| #[trigger] self.mem().contains_key(b) implies self.mem()[b].len()
                == 4096 && b == spec_page_base(b) by {
                if b != base {
                    assert(old(self).mem().contains_key(b));
                }
            }
        }
    }

    /// Removes the page holding `gpa`, if the store has one.
    pub fn del_page(&mut self, gpa: Gpa)
        requires
            old(self).inv(),
        ensures
            final(self).inv(),
            final(self).mem() == old(self).mem().remove(spec_page_base(gpa)),
    {
        let (base, _) = page_off(gpa);
        page_map_remove(&mut self.pages, base);
        proof {
            assert forall|b: u64| #[trigger] self.mem().contains_key(b) implies self.mem()[b].len()
                == 4096 && b == spec_page_base(b) by {
                assert(old(self).mem().contains_key(b));
            }
        }
    }
}

impl X64VirtualAddressSpace for GpaManager {
    closed spec fn mem(&self) -> Map<u64, Seq<u8>> {
        page_map_view(self.pages)
    }

    closed spec fn inv(&self) -> bool {
        mem_wf(page_map_view(self.pages))
    }

    proof fn lemma_inv_mem_wf(&self) {
    }

    fn read_gpa(&self, gpa: Gpa, len: usize) -> (r: Result<Vec<u8>, VirtMemError>) {
        let (base, off) = page_off(gpa);
        if len > 4096 - off {
            return Err(VirtMemError::SpanningPage);
        }
        match page_map_get(&self.pages, base) {
            None => Err(VirtMemError::MissingPage(base)),
            Some(arr) => {
                proof {
                    assert(arr@.len() == 4096);
                }
                let mut v: Vec<u8> = Vec::new();
                let mut i: usize = 0;
                while i < len
                    invariant
                        i <= len,
                        off + len <= 4096,
                        arr@.len() == 4096,
                        v@ =~= arr@.subrange(off as int, off + i),
                    decreases len - i,
                {
                    v.push(arr[off + i]);
                    i = i + 1;
                }
                proof {
                    assert(v@ =~= arr@.subrange(off as int, off + len));
                }
                Ok(v)
            },
        }
    }

    fn write_gpa(&mut self, gpa: Gpa, data: &[u8]) -> (r: Result<(), VirtMemError>) {
        let (base, off) = page_off(gpa);
        let n: usize = data.len();
        if n > 4096 - off {
            return Err(VirtMemError::SpanningPage);
        }
        match page_map_get(&self.pages, base) {
            // A write to an absent page is dropped: no error and no new page,
            // by the store's documented policy.
            None => Ok(()),
            Some(arr) => {
                proof {
                    assert(arr@.len() == 4096);
                }
                let mut page: Vec<u8> = Vec::new();
                let mut j: usize = 0;
                while j < 4096
                    invariant
                        j <= 4096,
                        off + n <= 4096,
                        n == data@.len(),
                        arr@.len() == 4096,
                        page@.len() == j,
                        forall|k: int|
                            0 <= k < j ==> page@[k] == (if off <= k < off + n {
                                data@[k - off]
                            } else {
                                arr@[k]
                            }),
                    decreases 4096 - j,
                {
                    if j >= off && j < off + n {
                        page.push(data[j - off]);
                    } else {
                        page.push(arr[j]);
                    }
                    j = j + 1;
                }
                proof {
                    assert(page@ =~= spec_splice(arr@, off as int, data@));
                    lemma_write_gpa_preserves_wf(self.mem(), gpa, data@);
                }
                page_map_insert(&mut self.pages, base, page);
                Ok(())
            },
        }
    }
}

} // verus!

use vstd::prelude::*;

use crate::chunk::spec_chunk_len;
use crate::errors::VirtMemError;
use crate::paging::{
    base_flags, lemma_entry_base_bounds, lemma_flag_bits, lemma_index_bounds,
    lemma_low_bits_bounds, lemma_page_base_offset, page_offset, pd_index, pdpt_index, pml4_index,
    pt_index, pte_flags, spec_entry_base, spec_page_base, spec_page_offset, spec_pd_index,
    spec_pdpt_index, spec_pml4_index, spec_pt_index, Gpa, Gva,
};
use vstd::bytes::{
    spec_u16_from_le_bytes, spec_u32_from_le_bytes, spec_u64_from_le_bytes, u16_from_le_bytes,
    u32_from_le_bytes, u64_from_le_bytes,
};
use vstd::slice::slice_subrange;

verus! {

/// Well-formedness of modeled guest physical memory: every key is a
/// page-aligned base address and every page holds exactly 4096 bytes.
pub open spec fn mem_wf(mem: Map<u64, Seq<u8>>) -> bool {
    forall|b: u64| #[trigger]
        mem.contains_key(b) ==> mem[b].len() == 4096 && b == spec_page_base(b)
}

/// What a physical read of `len` bytes at `gpa` returns: the bytes of the
/// containing page, a `SpanningPage` error for a span that crosses a 4KB
/// boundary, or a `MissingPage` error naming the absent page's base.
pub open spec fn spec_read_gpa(mem: Map<u64, Seq<u8>>, gpa: u64, len: int) -> Result<
    Seq<u8>,
    VirtMemError,
> {
    let base = spec_page_base(gpa);
    let off = spec_page_offset(gpa) as int;
    if off + len > 4096 {
        Err(VirtMemError::SpanningPage)
    } else if !mem.contains_key(base) {
        Err(VirtMemError::MissingPage(base))
    } else {
        Ok(mem[base].subrange(off, off + len))
    }
}

/// A page with `data` laid over its bytes starting at `off`.
pub open spec fn spec_splice(page: Seq<u8>, off: int, data: Seq<u8>) -> Seq<u8> {
    page.map(
        |i: int, b: u8|
            if off <= i < off + data.len() {
                data[i - off]
            } else {
                b
            },
    )
}

/// What a physical write of `data` at `gpa` does to the memory: a span that
/// crosses a 4KB boundary is rejected with `SpanningPage`; a write to an
/// absent page is dropped without error and without allocating, by the
/// store's documented policy; otherwise the containing page is updated.
pub open spec fn spec_write_gpa(mem: Map<u64, Seq<u8>>, gpa: u64, data: Seq<u8>) -> Result<
    Map<u64, Seq<u8>>,
    VirtMemError,
> {
    let base = spec_page_base(gpa);
    let off = spec_page_offset(gpa) as int;
    if off + data.len() > 4096 {
        Err(VirtMemError::SpanningPage)
    } else if !mem.contains_key(base) {
        Ok(mem)
    } else {
        Ok(mem.insert(base, spec_splice(mem[base], off, data)))
    }
}

/// An 8-byte little-endian physical read.
pub open spec fn spec_read_gpa_u64(mem: Map<u64, Seq<u8>>, gpa: u64) -> Result<
    u64,
    VirtMemError,
> {
    match spec_read_gpa(mem, gpa, 8) {
        Ok(s) => Ok(spec_u64_from_le_bytes(s)),
        Err(e) => Err(e),
    }
}

/// Physical address of the entry at `index` in the table named by the masked
/// base of `table_src` (a root value or a higher-level entry).
pub open spec fn spec_entry_addr(table_src: u64, index: u64) -> u64 {
    (spec_entry_base(table_src) + index * 8) as u64
}

/// The 4-level x86-64 page walk over modeled physical memory. Each entry is
/// an 8-byte little-endian physical read; a clear present bit (bit 0) fails
/// with the level's error; a set page-size bit (bit 7) at the PDPTE or PDE
/// level maps the virtual address's low 30 or 21 bits directly.
pub open spec fn spec_translate(mem: Map<u64, Seq<u8>>, cr3: u64, gva: u64) -> Result<
    u64,
    VirtMemError,
> {
    match spec_read_gpa_u64(mem, spec_entry_addr(cr3, spec_pml4_index(gva))) {
        Err(e) => Err(e),
        Ok(pml4e) => if pml4e & 1 == 0 {
            Err(VirtMemError::Pml4eNotPresent)
        } else {
            match spec_read_gpa_u64(mem, spec_entry_addr(pml4e, spec_pdpt_index(gva))) {
                Err(e) => Err(e),
                Ok(pdpte) => if pdpte & 1 == 0 {
                    Err(VirtMemError::PdpteNotPresent)
                } else if pdpte & 0x80 != 0 {
                    Ok((spec_entry_base(pdpte) + (gva & 0x3fff_ffff)) as u64)
                } else {
                    match spec_read_gpa_u64(mem, spec_entry_addr(pdpte, spec_pd_index(gva))) {
                        Err(e) => Err(e),
                        Ok(pde) => if pde & 1 == 0 {
                            Err(VirtMemError::PdeNotPresent)
                        } else if pde & 0x80 != 0 {
                            Ok((spec_entry_base(pde) + (gva & 0x1f_ffff)) as u64)
                        } else {
                            match spec_read_gpa_u64(
                                mem,
                                spec_entry_addr(pde, spec_pt_index(gva)),
                            ) {
                                Err(e) => Err(e),
                                Ok(pte) => if pte & 1 == 0 {
                                    Err(VirtMemError::PteNotPresent)
                                } else {
                                    Ok((spec_entry_base(pte) + spec_page_offset(gva)) as u64)
                                },
                            }
                        },
                    }
                },
            }
        },
    }
}

/// What an arbitrary-length virtual read returns: the span is decomposed into
/// page-bounded sub-ranges; each sub-range's start is translated and its
/// bytes are read physically; the first failure aborts the whole read.
pub open spec fn spec_read_gva(mem: Map<u64, Seq<u8>>, cr3: u64, gva: int, len: int) -> Result<
    Seq<u8>,
    VirtMemError,
> {
    spec_read_gva_rec(mem, cr3, gva, len)
}

pub open spec fn spec_read_gva_rec(mem: Map<u64, Seq<u8>>, cr3: u64, gva: int, len: int) -> Result<
    Seq<u8>,
    VirtMemError,
>
    decreases len,
{
    if len <= 0 {
        Ok(Seq::empty())
    } else {
        let c = spec_chunk_len(gva, len);
        match spec_translate(mem, cr3, gva as u64) {
            Err(e) => Err(e),
            Ok(pa) => match spec_read_gpa(mem, pa, c) {
                Err(e) => Err(e),
                Ok(bytes) => match spec_read_gva_rec(mem, cr3, gva + c, len - c) {
                    Err(e) => Err(e),
                    Ok(rest) => Ok(bytes + rest),
                },
            },
        }
    }
}

/// What an arbitrary-length virtual write returns and does to the memory:
/// sub-ranges are written strictly in address order; the first failure halts
/// further progress and the chunks already written remain applied.
pub open spec fn spec_write_gva(mem: Map<u64, Seq<u8>>, cr3: u64, gva: int, data: Seq<u8>) -> (
    Result<(), VirtMemError>,
    Map<u64, Seq<u8>>,
)
    decreases data.len(),
{
    if data.len() == 0 {
        (Ok(()), mem)
    } else {
        let c = spec_chunk_len(gva, data.len() as int);
        match spec_translate(mem, cr3, gva as u64) {
            Err(e) => (Err(e), mem),
            Ok(pa) => match spec_write_gpa(mem, pa, data.take(c)) {
                Err(e) => (Err(e), mem),
                Ok(mem2) => spec_write_gva(mem2, cr3, gva + c, data.skip(c)),
            },
        }
    }
}

/// A 4-byte little-endian physical read.
pub open spec fn spec_read_gpa_u32(mem: Map<u64, Seq<u8>>, gpa: u64) -> Result<
    u32,
    VirtMemError,
> {
    match spec_read_gpa(mem, gpa, 4) {
        Ok(s) => Ok(spec_u32_from_le_bytes(s)),
        Err(e) => Err(e),
    }
}

/// A 2-byte little-endian physical read.
pub open spec fn spec_read_gpa_u16(mem: Map<u64, Seq<u8>>, gpa: u64) -> Result<
    u16,
    VirtMemError,
> {
    match spec_read_gpa(mem, gpa, 2) {
        Ok(s) => Ok(spec_u16_from_le_bytes(s)),
        Err(e) => Err(e),
    }
}

/// A single-byte physical read.
pub open spec fn spec_read_gpa_u8(mem: Map<u64, Seq<u8>>, gpa: u64) -> Result<u8, VirtMemError> {
    match spec_read_gpa(mem, gpa, 1) {
        Ok(s) => Ok(s[0]),
        Err(e) => Err(e),
    }
}

/// An 8-byte little-endian virtual read.
pub open spec fn spec_read_gva_u64(mem: Map<u64, Seq<u8>>, cr3: u64, gva: u64) -> Result<
    u64,
    VirtMemError,
> {
    match spec_read_gva(mem, cr3, gva as int, 8) {
        Ok(s) => Ok(spec_u64_from_le_bytes(s)),
        Err(e) => Err(e),
    }
}

/// A 4-byte little-endian virtual read.
pub open spec fn spec_read_gva_u32(mem: Map<u64, Seq<u8>>, cr3: u64, gva: u64) -> Result<
    u32,
    VirtMemError,
> {
    match spec_read_gva(mem, cr3, gva as int, 4) {
        Ok(s) => Ok(spec_u32_from_le_bytes(s)),
        Err(e) => Err(e),
    }
}

/// A 2-byte little-endian virtual read.
pub open spec fn spec_read_gva_u16(mem: Map<u64, Seq<u8>>, cr3: u64, gva: u64) -> Result<
    u16,
    VirtMemError,
> {
    match spec_read_gva(mem, cr3, gva as int, 2) {
        Ok(s) => Ok(spec_u16_from_le_bytes(s)),
        Err(e) => Err(e),
    }
}

/// A single-byte virtual read.
pub open spec fn spec_read_gva_u8(mem: Map<u64, Seq<u8>>, cr3: u64, gva: u64) -> Result<
    u8,
    VirtMemError,
> {
    match spec_read_gva(mem, cr3, gva as int, 1) {
        Ok(s) => Ok(s[0]),
        Err(e) => Err(e),
    }
}

/// The capability contract over guest physical memory: a concrete backing
/// store supplies the two physical primitives `read_gpa` and `write_gpa`,
/// stated against its modeled memory `mem()`; every other operation is
/// derived from them and from the chunk splitter, and holds for any store.
pub trait X64VirtualAddressSpace: Sized {
    /// The guest physical memory this space models: page-aligned base
    /// address to 4096-byte page contents.
    spec fn mem(&self) -> Map<u64, Seq<u8>>;

    /// Invariant of the concrete store.
    spec fn inv(&self) -> bool;

    /// The invariant makes the modeled memory well-formed.
    proof fn lemma_inv_mem_wf(&self)
        requires
            self.inv(),
        ensures
            mem_wf(self.mem()),
    ;

    /// Physical read primitive: `len` bytes at `gpa`, within one page.
    fn read_gpa(&self, gpa: Gpa, len: usize) -> (r: Result<Vec<u8>, VirtMemError>)
        requires
            self.inv(),
        ensures
            match r {
                Ok(v) => spec_read_gpa(self.mem(), gpa, len as int) == Ok::<Seq<u8>, VirtMemError>(
                    v@,
                ) && v@.len() == len,
                Err(e) => spec_read_gpa(self.mem(), gpa, len as int) == Err::<
                    Seq<u8>,
                    VirtMemError,
                >(e),
            },
    ;

    /// Physical write primitive: `data` at `gpa`, within one page.
    fn write_gpa(&mut self, gpa: Gpa, data: &[u8]) -> (r: Result<(), VirtMemError>)
        requires
            old(self).inv(),
        ensures
            final(self).inv(),
            match r {
                Ok(()) => spec_write_gpa(old(self).mem(), gpa, data@) == Ok::<
                    Map<u64, Seq<u8>>,
                    VirtMemError,
                >(final(self).mem()),
                Err(e) => spec_write_gpa(old(self).mem(), gpa, data@) == Err::<
                    Map<u64, Seq<u8>>,
                    VirtMemError,
                >(e) && final(self).mem() == old(self).mem(),
            },
    ;

    /// 8-byte little-endian physical read at `gpa`.
    fn read_gpa_u64(&self, gpa: Gpa) -> (r: Result<u64, VirtMemError>)
        requires
            self.inv(),
        ensures
            r == spec_read_gpa_u64(self.mem(), gpa),
    {
        match self.read_gpa(gpa, 8) {
            Ok(buf) => Ok(u64_from_le_bytes(buf.as_slice())),
            Err(e) => Err(e),
        }
    }

    /// 4-byte little-endian physical read at `gpa`.
    fn read_gpa_u32(&self, gpa: Gpa) -> (r: Result<u32, VirtMemError>)
        requires
            self.inv(),
        ensures
            r == spec_read_gpa_u32(self.mem(), gpa),
    {
        match self.read_gpa(gpa, 4) {
            Ok(buf) => Ok(u32_from_le_bytes(buf.as_slice())),
            Err(e) => Err(e),
        }
    }

    /// 2-byte little-endian physical read at `gpa`.
    fn read_gpa_u16(&self, gpa: Gpa) -> (r: Result<u16, VirtMemError>)
        requires
            self.inv(),
        ensures
            r == spec_read_gpa_u16(self.mem(), gpa),
    {
        match self.read_gpa(gpa, 2) {
            Ok(buf) => Ok(u16_from_le_bytes(buf.as_slice())),
            Err(e) => Err(e),
        }
    }

    /// Single-byte physical read at `gpa`.
    fn read_gpa_u8(&self, gpa: Gpa) -> (r: Result<u8, VirtMemError>)
        requires
            self.inv(),
        ensures
            r == spec_read_gpa_u8(self.mem(), gpa),
    {
        match self.read_gpa(gpa, 1) {
            Ok(buf) => Ok(buf[0]),
            Err(e) => Err(e),
        }
    }

    /// 8-byte little-endian virtual read at `gva` under the root `cr3`.
    fn read_gva_u64(&self, cr3: Gpa, gva: Gva) -> (r: Result<u64, VirtMemError>)
        requires
            self.inv(),
            gva + 8 <= u64::MAX,
        ensures
            r == spec_read_gva_u64(self.mem(), cr3, gva),
    {
        match self.read_gva(cr3, gva, 8) {
            Ok(buf) => Ok(u64_from_le_bytes(buf.as_slice())),
            Err(e) => Err(e),
        }
    }

    /// 4-byte little-endian virtual read at `gva` under the root `cr3`.
    fn read_gva_u32(&self, cr3: Gpa, gva: Gva) -> (r: Result<u32, VirtMemError>)
        requires
            self.inv(),
            gva + 4 <= u64::MAX,
        ensures
            r == spec_read_gva_u32(self.mem(), cr3, gva),
    {
        match self.read_gva(cr3, gva, 4) {
            Ok(buf) => Ok(u32_from_le_bytes(buf.as_slice())),
            Err(e) => Err(e),
        }
    }

    /// 2-byte little-endian virtual read at `gva` under the root `cr3`.
    fn read_gva_u16(&self, cr3: Gpa, gva: Gva) -> (r: Result<u16, VirtMemError>)
        requires
            self.inv(),
            gva + 2 <= u64::MAX,
        ensures
            r == spec_read_gva_u16(self.mem(), cr3, gva),
    {
        match self.read_gva(cr3, gva, 2) {
            Ok(buf) => Ok(u16_from_le_bytes(buf.as_slice())),
            Err(e) => Err(e),
        }
    }

    /// Single-byte virtual read at `gva` under the root `cr3`.
    fn read_gva_u8(&self, cr3: Gpa, gva: Gva) -> (r: Result<u8, VirtMemError>)
        requires
            self.inv(),
            gva + 1 <= u64::MAX,
        ensures
            r == spec_read_gva_u8(self.mem(), cr3, gva),
    {
        match self.read_gva(cr3, gva, 1) {
            Ok(buf) => Ok(buf[0]),
            Err(e) => Err(e),
        }
    }

    /// Arbitrary-length virtual read: `len` bytes starting at `gva`, split
    /// into page-bounded chunks, each translated and read physically in
    /// address order. The first failing chunk aborts the whole read.
    fn read_gva(&self, cr3: Gpa, gva: Gva, len: usize) -> (r: Result<Vec<u8>, VirtMemError>)
        requires
            self.inv(),
            gva + len <= u64::MAX,
        ensures
            match r {
                Ok(v) => spec_read_gva(self.mem(), cr3, gva as int, len as int) == Ok::<
                    Seq<u8>,
                    VirtMemError,
                >(v@) && v@.len() == len,
                Err(e) => spec_read_gva(self.mem(), cr3, gva as int, len as int) == Err::<
                    Seq<u8>,
                    VirtMemError,
                >(e),
            },
    {
        let mut out: Vec<u8> = Vec::new();
        let mut base: Gva = gva;
        let mut remaining: usize = len;

        while remaining > 0
            invariant
                self.inv(),
                gva + len <= u64::MAX,
                base == gva + len - remaining,
                remaining <= len,
                out@.len() == len - remaining,
                spec_read_gva(self.mem(), cr3, gva as int, len as int) == match spec_read_gva_rec(
                    self.mem(),
                    cr3,
                    base as int,
                    remaining as int,
                ) {
                    Ok(rest) => Ok::<Seq<u8>, VirtMemError>(out@ + rest),
                    Err(e) => Err::<Seq<u8>, VirtMemError>(e),
                },
            decreases remaining,
        {
            let off: u64 = base & 0xfff;
            proof {
                lemma_page_base_offset(base);
            }
            let to_boundary: u64 = 4096 - off;
            let chunk_sz: usize = if (remaining as u64) < to_boundary {
                remaining
            } else {
                to_boundary as usize
            };
            proof {
                assert(chunk_sz as int == spec_chunk_len(base as int, remaining as int));
            }
            let pa = match self.translate_gva(cr3, base) {
                Ok(pa) => pa,
                Err(e) => {
                    return Err(e);
                },
            };
            let mut bytes = match self.read_gpa(pa, chunk_sz) {
                Ok(v) => v,
                Err(e) => {
                    return Err(e);
                },
            };
            let ghost prev = out@;
            let ghost chunk_bytes = bytes@;
            out.append(&mut bytes);
            base = base + chunk_sz as u64;
            remaining = remaining - chunk_sz;
            proof {
                assert forall|rest: Seq<u8>| prev + (chunk_bytes + rest) =~= out@ + rest by {}
                assert(spec_read_gva(self.mem(), cr3, gva as int, len as int) == match
                    spec_read_gva_rec(self.mem(), cr3, base as int, remaining as int) {
                    Ok(rest) => Ok::<Seq<u8>, VirtMemError>(out@ + rest),
                    Err(e) => Err::<Seq<u8>, VirtMemError>(e),
                });
            }
        }
        proof {
            assert(out@ + Seq::<u8>::empty() =~= out@);
        }
        Ok(out)
    }

    /// Arbitrary-length virtual write: `buf` written starting at `gva`, split
    /// into page-bounded chunks, each translated and written physically
    /// strictly in address order. The first failing chunk halts further
    /// progress; chunks already written remain applied.
    fn write_gva(&mut self, cr3: Gpa, gva: Gva, buf: &[u8]) -> (r: Result<(), VirtMemError>)
        requires
            old(self).inv(),
            gva + buf@.len() <= u64::MAX,
        ensures
            final(self).inv(),
            r == spec_write_gva(old(self).mem(), cr3, gva as int, buf@).0,
            final(self).mem() == spec_write_gva(old(self).mem(), cr3, gva as int, buf@).1,
    {
        let n: usize = buf.len();
        let mut off: usize = 0;
        proof {
            assert(buf@.skip(0) =~= buf@);
        }
        while off < n
            invariant
                self.inv(),
                n == buf@.len(),
                gva + n <= u64::MAX,
                off <= n,
                spec_write_gva(old(self).mem(), cr3, gva as int, buf@) == spec_write_gva(
                    self.mem(),
                    cr3,
                    gva + off,
                    buf@.skip(off as int),
                ),
            decreases n - off,
        {
            let base: Gva = gva + off as u64;
            let pageoff: u64 = base & 0xfff;
            proof {
                lemma_page_base_offset(base);
            }
            let to_boundary: u64 = 4096 - pageoff;
            let left: usize = n - off;
            let chunk_sz: usize = if (left as u64) < to_boundary {
                left
            } else {
                to_boundary as usize
            };
            proof {
                assert(chunk_sz as int == spec_chunk_len(base as int, left as int));
                assert(buf@.skip(off as int).len() == left);
            }
            let pa = match self.translate_gva(cr3, base) {
                Ok(pa) => pa,
                Err(e) => {
                    return Err(e);
                },
            };
            let piece: &[u8] = slice_subrange(buf, off, off + chunk_sz);
            proof {
                assert(piece@ =~= buf@.skip(off as int).take(chunk_sz as int));
            }
            match self.write_gpa(pa, piece) {
                Ok(()) => {},
                Err(e) => {
                    return Err(e);
                },
            }
            off = off + chunk_sz;
            proof {
                assert(buf@.skip((off - chunk_sz) as int).skip(chunk_sz as int) =~= buf@.skip(
                    off as int,
                ));
            }
        }
        proof {
            assert(buf@.skip(n as int).len() == 0);
        }
        Ok(())
    }

    /// Virtual-to-physical translation: the 4-level page walk from the root
    /// `cr3` for the virtual address `gva`, as `spec_translate` states it.
    fn translate_gva(&self, cr3: Gpa, gva: Gva) -> (r: Result<Gpa, VirtMemError>)
        requires
            self.inv(),
        ensures
            r == spec_translate(self.mem(), cr3, gva),
    {
        proof {
            lemma_index_bounds(gva);
            lemma_low_bits_bounds(gva);
        }
        let (pml4_base, _) = base_flags(cr3);
        proof {
            lemma_entry_base_bounds(cr3);
        }
        let pml4e_addr = pml4_base + pml4_index(gva) * 8;
        let pml4e = match self.read_gpa_u64(pml4e_addr) {
            Ok(v) => v,
            Err(e) => {
                return Err(e);
            },
        };
        let (pdpt_base, pml4e_flags) = base_flags(pml4e);
        proof {
            lemma_flag_bits(pml4e);
            lemma_entry_base_bounds(pml4e);
        }
        if pml4e_flags & 1 == 0 {
            return Err(VirtMemError::Pml4eNotPresent);
        }
        let pdpte_addr = pdpt_base + pdpt_index(gva) * 8;
        let pdpte = match self.read_gpa_u64(pdpte_addr) {
            Ok(v) => v,
            Err(e) => {
                return Err(e);
            },
        };
        let (pd_base, pdpte_flags) = base_flags(pdpte);
        proof {
            lemma_flag_bits(pdpte);
            lemma_entry_base_bounds(pdpte);
        }
        if pdpte_flags & 1 == 0 {
            return Err(VirtMemError::PdpteNotPresent);
        }
        // A set page-size bit (bit 7) marks a 1GB huge page: the entry's base
        // maps the low 30 bits of the virtual address directly.
        if pdpte_flags & 0x80 != 0 {
            let res = pd_base + (gva & 0x3fff_ffff);
            return Ok(res);
        }
        let pde_addr = pd_base + pd_index(gva) * 8;
        let pde = match self.read_gpa_u64(pde_addr) {
            Ok(v) => v,
            Err(e) => {
                return Err(e);
            },
        };
        let (pt_base, pde_flags) = base_flags(pde);
        proof {
            lemma_flag_bits(pde);
            lemma_entry_base_bounds(pde);
        }
        if pde_flags & 1 == 0 {
            return Err(VirtMemError::PdeNotPresent);
        }
        // A set page-size bit (bit 7) marks a 2MB large page: the entry's
        // base maps the low 21 bits of the virtual address directly.
        if pde_flags & 0x80 != 0 {
            let res = pt_base + (gva & 0x1f_ffff);
            return Ok(res);
        }
        let pte_addr = pt_base + pt_index(gva) * 8;
        let pte = match self.read_gpa_u64(pte_addr) {
            Ok(v) => v,
            Err(e) => {
                return Err(e);
            },
        };
        let (pte_paddr, pte_fl) = pte_flags(pte);
        proof {
            lemma_flag_bits(pte);
            lemma_entry_base_bounds(pte);
            lemma_page_base_offset(gva);
        }
        if pte_fl & 1 == 0 {
            return Err(VirtMemError::PteNotPresent);
        }
        Ok(pte_paddr + page_offset(gva))
    }
}

/// Translation determinism: the walk's outcome is a function of the table
/// contents, the page-table root and the virtual address alone; translations
/// over equal table contents agree.
pub proof fn lemma_translate_deterministic(
    mem1: Map<u64, Seq<u8>>,
    mem2: Map<u64, Seq<u8>>,
    cr3: u64,
    gva: u64,
)
    requires
        mem1 == mem2,
    ensures
        spec_translate(mem1, cr3, gva) == spec_translate(mem2, cr3, gva),
{
}

/// Present-bit enforcement at the PML4 level: a readable PML4 entry with a
/// clear present bit fails translation with exactly `Pml4eNotPresent`.
pub proof fn lemma_pml4e_not_present(mem: Map<u64, Seq<u8>>, cr3: u64, gva: u64, pml4e: u64)
    requires
        spec_read_gpa_u64(mem, spec_entry_addr(cr3, spec_pml4_index(gva))) == Ok::<
            u64,
            VirtMemError,
        >(pml4e),
        pml4e & 1 == 0,
    ensures
        spec_translate(mem, cr3, gva) == Err::<u64, VirtMemError>(VirtMemError::Pml4eNotPresent),
{
}

/// Present-bit enforcement at the PDPT level.
pub proof fn lemma_pdpte_not_present(
    mem: Map<u64, Seq<u8>>,
    cr3: u64,
    gva: u64,
    pml4e: u64,
    pdpte: u64,
)
    requires
        spec_read_gpa_u64(mem, spec_entry_addr(cr3, spec_pml4_index(gva))) == Ok::<
            u64,
            VirtMemError,
        >(pml4e),
        pml4e & 1 == 1,
        spec_read_gpa_u64(mem, spec_entry_addr(pml4e, spec_pdpt_index(gva))) == Ok::<
            u64,
            VirtMemError,
        >(pdpte),
        pdpte & 1 == 0,
    ensures
        spec_translate(mem, cr3, gva) == Err::<u64, VirtMemError>(VirtMemError::PdpteNotPresent),
{
    assert(pml4e & 1 != 0);
}

/// Present-bit enforcement at the PD level.
pub proof fn lemma_pde_not_present(
    mem: Map<u64, Seq<u8>>,
    cr3: u64,
    gva: u64,
    pml4e: u64,
    pdpte: u64,
    pde: u64,
)
    requires
        spec_read_gpa_u64(mem, spec_entry_addr(cr3, spec_pml4_index(gva))) == Ok::<
            u64,
            VirtMemError,
        >(pml4e),
        pml4e & 1 == 1,
        spec_read_gpa_u64(mem, spec_entry_addr(pml4e, spec_pdpt_index(gva))) == Ok::<
            u64,
            VirtMemError,
        >(pdpte),
        pdpte & 1 == 1,
        pdpte & 0x80 == 0,
        spec_read_gpa_u64(mem, spec_entry_addr(pdpte, spec_pd_index(gva))) == Ok::<
            u64,
            VirtMemError,
        >(pde),
        pde & 1 == 0,
    ensures
        spec_translate(mem, cr3, gva) == Err::<u64, VirtMemError>(VirtMemError::PdeNotPresent),
{
}

/// Present-bit enforcement at the PT level.
pub proof fn lemma_pte_not_present(
    mem: Map<u64, Seq<u8>>,
    cr3: u64,
    gva: u64,
    pml4e: u64,
    pdpte: u64,
    pde: u64,
    pte: u64,
)
    requires
        spec_read_gpa_u64(mem, spec_entry_addr(cr3, spec_pml4_index(gva))) == Ok::<
            u64,
            VirtMemError,
        >(pml4e),
        pml4e & 1 == 1,
        spec_read_gpa_u64(mem, spec_entry_addr(pml4e, spec_pdpt_index(gva))) == Ok::<
            u64,
            VirtMemError,
        >(pdpte),
        pdpte & 1 == 1,
        pdpte & 0x80 == 0,
        spec_read_gpa_u64(mem, spec_entry_addr(pdpte, spec_pd_index(gva))) == Ok::<
            u64,
            VirtMemError,
        >(pde),
        pde & 1 == 1,
        pde & 0x80 == 0,
        spec_read_gpa_u64(mem, spec_entry_addr(pde, spec_pt_index(gva))) == Ok::<
            u64,
            VirtMemError,
        >(pte),
        pte & 1 == 0,
    ensures
        spec_translate(mem, cr3, gva) == Err::<u64, VirtMemError>(VirtMemError::PteNotPresent),
{
}

/// Huge-page shortcut: a present PDPT entry with the page-size bit set ends
/// the walk with the entry's base plus the low 30 bits of the virtual
/// address, and no PD or PT read matters: every memory with the same two
/// entry reads translates to the same result.
pub proof fn lemma_huge_page_shortcut(
    mem: Map<u64, Seq<u8>>,
    cr3: u64,
    gva: u64,
    pml4e: u64,
    pdpte: u64,
)
    requires
        spec_read_gpa_u64(mem, spec_entry_addr(cr3, spec_pml4_index(gva))) == Ok::<
            u64,
            VirtMemError,
        >(pml4e),
        pml4e & 1 == 1,
        spec_read_gpa_u64(mem, spec_entry_addr(pml4e, spec_pdpt_index(gva))) == Ok::<
            u64,
            VirtMemError,
        >(pdpte),
        pdpte & 1 == 1,
        pdpte & 0x80 != 0,
    ensures
        spec_translate(mem, cr3, gva) == Ok::<u64, VirtMemError>(
            (spec_entry_base(pdpte) + (gva & 0x3fff_ffff)) as u64,
        ),
        forall|mem2: Map<u64, Seq<u8>>|
            spec_read_gpa_u64(mem2, spec_entry_addr(cr3, spec_pml4_index(gva))) == Ok::<
                u64,
                VirtMemError,
            >(pml4e) && spec_read_gpa_u64(mem2, spec_entry_addr(pml4e, spec_pdpt_index(gva)))
                == Ok::<u64, VirtMemError>(pdpte) ==> #[trigger] spec_translate(mem2, cr3, gva)
                == Ok::<u64, VirtMemError>((spec_entry_base(pdpte) + (gva & 0x3fff_ffff)) as u64),
{
}

/// Large-page shortcut: a present PD entry with the page-size bit set ends
/// the walk with the entry's base plus the low 21 bits of the virtual
/// address, and no PT read matters: every memory with the same three entry
/// reads translates to the same result.
pub proof fn lemma_large_page_shortcut(
    mem: Map<u64, Seq<u8>>,
    cr3: u64,
    gva: u64,
    pml4e: u64,
    pdpte: u64,
    pde: u64,
)
    requires
        spec_read_gpa_u64(mem, spec_entry_addr(cr3, spec_pml4_index(gva))) == Ok::<
            u64,
            VirtMemError,
        >(pml4e),
        pml4e & 1 == 1,
        spec_read_gpa_u64(mem, spec_entry_addr(pml4e, spec_pdpt_index(gva))) == Ok::<
            u64,
            VirtMemError,
        >(pdpte),
        pdpte & 1 == 1,
        pdpte & 0x80 == 0,
        spec_read_gpa_u64(mem, spec_entry_addr(pdpte, spec_pd_index(gva))) == Ok::<
            u64,
            VirtMemError,
        >(pde),
        pde & 1 == 1,
        pde & 0x80 != 0,
    ensures
        spec_translate(mem, cr3, gva) == Ok::<u64, VirtMemError>(
            (spec_entry_base(pde) + (gva & 0x1f_ffff)) as u64,
        ),
        forall|mem2: Map<u64, Seq<u8>>|
            spec_read_gpa_u64(mem2, spec_entry_addr(cr3, spec_pml4_index(gva))) == Ok::<
                u64,
                VirtMemError,
            >(pml4e) && spec_read_gpa_u64(mem2, spec_entry_addr(pml4e, spec_pdpt_index(gva)))
                == Ok::<u64, VirtMemError>(pdpte) && spec_read_gpa_u64(
                mem2,
                spec_entry_addr(pdpte, spec_pd_index(gva)),
            ) == Ok::<u64, VirtMemError>(pde) ==> #[trigger] spec_translate(mem2, cr3, gva) == Ok::<
                u64,
                VirtMemError,
            >((spec_entry_base(pde) + (gva & 0x1f_ffff)) as u64),
{
}

/// Spanning rejection: a physical access whose span crosses a 4KB boundary
/// always fails with `SpanningPage`, whatever pages the memory holds.
pub proof fn lemma_spanning_rejected(mem: Map<u64, Seq<u8>>, gpa: u64, len: int)
    requires
        spec_page_offset(gpa) + len > 4096,
    ensures
        spec_read_gpa(mem, gpa, len) == Err::<Seq<u8>, VirtMemError>(VirtMemError::SpanningPage),
        forall|data: Seq<u8>|
            data.len() == len ==> #[trigger] spec_write_gpa(mem, gpa, data) == Err::<
                Map<u64, Seq<u8>>,
                VirtMemError,
            >(VirtMemError::SpanningPage),
{
}

/// Missing-page read: a non-spanning physical read of a page never added to
/// the store fails with `MissingPage` carrying that page's base address.
pub proof fn lemma_missing_page_read(mem: Map<u64, Seq<u8>>, gpa: u64, len: int)
    requires
        spec_page_offset(gpa) + len <= 4096,
        !mem.contains_key(spec_page_base(gpa)),
    ensures
        spec_read_gpa(mem, gpa, len) == Err::<Seq<u8>, VirtMemError>(
            VirtMemError::MissingPage(spec_page_base(gpa)),
        ),
{
}

/// A physical write keeps the memory well-formed.
pub proof fn lemma_write_gpa_preserves_wf(mem: Map<u64, Seq<u8>>, gpa: u64, data: Seq<u8>)
    requires
        mem_wf(mem),
    ensures
        spec_write_gpa(mem, gpa, data) matches Ok(mem2) ==> mem_wf(mem2),
{
    let base = spec_page_base(gpa);
    let off = spec_page_offset(gpa) as int;
    if off + data.len() <= 4096 && mem.contains_key(base) {
        let mem2 = mem.insert(base, spec_splice(mem[base], off, data));
        assert(spec_splice(mem[base], off, data).len() == 4096);
        assert forall|b: u64| #[trigger] mem2.contains_key(b) implies mem2[b].len() == 4096 && b
            == spec_page_base(b) by {
            assert(mem.contains_key(b));
        }
    }
}

/// Round trip: writing a sub-range of a page present in the store and then
/// reading the same sub-range back returns the written bytes unchanged.
pub proof fn lemma_write_read_round_trip(mem: Map<u64, Seq<u8>>, gpa: u64, data: Seq<u8>)
    requires
        mem_wf(mem),
        mem.contains_key(spec_page_base(gpa)),
        spec_page_offset(gpa) + data.len() <= 4096,
    ensures
        spec_write_gpa(mem, gpa, data) matches Ok(mem2) && spec_read_gpa(
            mem2,
            gpa,
            data.len() as int,
        ) == Ok::<Seq<u8>, VirtMemError>(data),
{
    let base = spec_page_base(gpa);
    let off = spec_page_offset(gpa) as int;
    let page2 = spec_splice(mem[base], off, data);
    let mem2 = mem.insert(base, page2);
    assert(page2.len() == 4096);
    assert(page2.subrange(off, off + data.len()) =~= data);
}

} // verus!

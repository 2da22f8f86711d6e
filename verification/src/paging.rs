use vstd::prelude::*;

verus! {

/// A guest virtual address, as seen by software inside the virtual machine.
pub type Gva = u64;

/// A guest physical address: a byte in the guest's physical address space.
pub type Gpa = u64;

/// Canonical physical address limit: entry base addresses keep at most 52 bits.
pub const PHYS_ADDR_MASK: u64 = 0x000f_ffff_ffff_ffff;

/// Page-aligned base of an address: the low 12 bits cleared.
pub open spec fn spec_page_base(a: u64) -> u64 {
    a & !0xfff
}

/// Byte offset of an address within its 4KB page.
pub open spec fn spec_page_offset(a: u64) -> u64 {
    a & 0xfff
}

/// Index into the PML4 table: bits 47..39 of the virtual address.
pub open spec fn spec_pml4_index(gva: u64) -> u64 {
    (gva >> 39) & 0x1ff
}

/// Index into the page-directory-pointer table: bits 38..30.
pub open spec fn spec_pdpt_index(gva: u64) -> u64 {
    (gva >> 30) & 0x1ff
}

/// Index into the page directory: bits 29..21.
pub open spec fn spec_pd_index(gva: u64) -> u64 {
    (gva >> 21) & 0x1ff
}

/// Index into the page table: bits 20..12.
pub open spec fn spec_pt_index(gva: u64) -> u64 {
    (gva >> 12) & 0x1ff
}

/// Base address held in a paging entry: low 12 bits and bits above the
/// architectural 52-bit physical limit cleared.
pub open spec fn spec_entry_base(e: u64) -> u64 {
    e & !0xfff & PHYS_ADDR_MASK
}

/// Basic facts about page base and offset, proved once at the bit level.
pub proof fn lemma_page_base_offset(a: u64)
    ensures
        spec_page_offset(a) == a % 4096,
        spec_page_base(a) + spec_page_offset(a) == a,
        spec_page_offset(a) < 4096,
        spec_page_base(a) % 4096 == 0,
{
    assert((a & !0xfff) + (a & 0xfff) == a && (a & 0xfff) == a % 4096 && (a & !0xfff) % 4096
        == 0) by (bit_vector);
}

/// The masked entry base is page aligned and within the 52-bit limit.
pub proof fn lemma_entry_base_bounds(e: u64)
    ensures
        spec_entry_base(e) % 4096 == 0,
        spec_entry_base(e) <= 0x000f_ffff_ffff_f000,
{
    assert((e & !0xfff & 0x000f_ffff_ffff_ffff) % 4096 == 0 && (e & !0xfff
        & 0x000f_ffff_ffff_ffff) <= 0x000f_ffff_ffff_f000) by (bit_vector);
}

/// Taking the page base is idempotent.
pub proof fn lemma_page_base_idem(a: u64)
    ensures
        spec_page_base(spec_page_base(a)) == spec_page_base(a),
{
    assert(((a & !0xfff) & !0xfff) == (a & !0xfff)) by (bit_vector);
}

/// The low flag bits of an entry agree whether read from the full entry or
/// from its masked low flag field.
pub proof fn lemma_flag_bits(e: u64)
    ensures
        ((e & 0x1ff) & 1) == (e & 1),
        ((e & 0x1ff) & 0x80) == (e & 0x80),
        ((e & 0xfff) & 1) == (e & 1),
{
    assert(((e & 0x1ff) & 1) == (e & 1) && ((e & 0x1ff) & 0x80) == (e & 0x80) && ((e & 0xfff) & 1)
        == (e & 1)) by (bit_vector);
}

/// Bounds of the low-bit pass-through masks of huge and large pages.
pub proof fn lemma_low_bits_bounds(gva: u64)
    ensures
        gva & 0x3fff_ffff <= 0x3fff_ffff,
        gva & 0x1f_ffff <= 0x1f_ffff,
        gva & 0xfff <= 0xfff,
{
    assert((gva & 0x3fff_ffff) <= 0x3fff_ffff && (gva & 0x1f_ffff) <= 0x1f_ffff && (gva & 0xfff)
        <= 0xfff) by (bit_vector);
}

/// Every table index fits in 9 bits.
pub proof fn lemma_index_bounds(gva: u64)
    ensures
        spec_pml4_index(gva) <= 0x1ff,
        spec_pdpt_index(gva) <= 0x1ff,
        spec_pd_index(gva) <= 0x1ff,
        spec_pt_index(gva) <= 0x1ff,
{
    assert(((gva >> 39) & 0x1ff) <= 0x1ff && ((gva >> 30) & 0x1ff) <= 0x1ff && ((gva >> 21)
        & 0x1ff) <= 0x1ff && ((gva >> 12) & 0x1ff) <= 0x1ff) by (bit_vector);
}

/// Splits an address into its page-aligned base and its in-page offset.
pub fn page_off(a: Gpa) -> (r: (Gpa, usize))
    ensures
        r.0 == spec_page_base(a),
        r.1 == spec_page_offset(a),
        r.1 < 4096,
{
    proof {
        lemma_page_base_offset(a);
    }
    (a & !0xfff, (a & 0xfff) as usize)
}

/// Index into the PML4 table for a virtual address.
pub fn pml4_index(gva: Gva) -> (r: u64)
    ensures
        r == spec_pml4_index(gva),
{
    (gva >> 39) & 0x1ff
}

/// Index into the page-directory-pointer table for a virtual address.
pub fn pdpt_index(gva: Gva) -> (r: u64)
    ensures
        r == spec_pdpt_index(gva),
{
    (gva >> 30) & 0x1ff
}

/// Index into the page directory for a virtual address.
pub fn pd_index(gva: Gva) -> (r: u64)
    ensures
        r == spec_pd_index(gva),
{
    (gva >> 21) & 0x1ff
}

/// Index into the page table for a virtual address.
pub fn pt_index(gva: Gva) -> (r: u64)
    ensures
        r == spec_pt_index(gva),
{
    (gva >> 12) & 0x1ff
}

/// Splits a paging entry into its masked base address and its low 9 flag bits.
pub fn base_flags(gpa: Gpa) -> (r: (Gpa, u64))
    ensures
        r.0 == spec_entry_base(gpa),
        r.1 == gpa & 0x1ff,
{
    (gpa & !0xfff & PHYS_ADDR_MASK, gpa & 0x1ff)
}

/// Splits a page-table entry into its masked base address and its low 12 flag
/// bits.
pub fn pte_flags(pte: u64) -> (r: (Gpa, u64))
    ensures
        r.0 == spec_entry_base(pte),
        r.1 == pte & 0xfff,
{
    (pte & !0xfff & PHYS_ADDR_MASK, pte & 0xfff)
}

/// Byte offset of a virtual address within its 4KB page.
pub fn page_offset(gva: Gva) -> (r: u64)
    ensures
        r == spec_page_offset(gva),
{
    gva & 0xfff
}

} // verus!

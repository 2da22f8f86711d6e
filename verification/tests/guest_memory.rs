use guestmem::arena::Allocator;
use guestmem::chunk::chunked;
use guestmem::errors::VirtMemError;
use guestmem::paging::{base_flags, page_off, page_offset, pd_index, pdpt_index, pml4_index,
    pt_index, pte_flags};
use guestmem::space::X64VirtualAddressSpace;
use guestmem::store::GpaManager;

// A virtual address with PML4 index 1, PDPT index 2, PD index 3, PT index 4
// and page offset 0x56.
const GVA: u64 = (1u64 << 39) | (2u64 << 30) | (3u64 << 21) | (4u64 << 12) | 0x56;

fn put_u64(page: &mut [u8; 4096], off: usize, val: u64) {
    page[off..off + 8].copy_from_slice(&val.to_le_bytes());
}

// Builds a store holding a complete 4-level mapping for GVA:
// cr3 -> PML4 at 0x1000, PDPT at 0x2000, PD at 0x3000, PT at 0x4000,
// data page at 0x5000 (and a second PT entry mapping the next virtual page
// to 0x6000). Returns the store and the page-table root.
fn mapped_store() -> (GpaManager, u64) {
    let mut gm = GpaManager::new();

    let mut pml4 = [0u8; 4096];
    // NX bit (63) set: the walk must mask it off the table base.
    put_u64(&mut pml4, 1 * 8, 0x2000 | 1 | (1u64 << 63));
    gm.add_page(0x1000, pml4);

    let mut pdpt = [0u8; 4096];
    put_u64(&mut pdpt, 2 * 8, 0x3000 | 1);
    gm.add_page(0x2000, pdpt);

    let mut pd = [0u8; 4096];
    put_u64(&mut pd, 3 * 8, 0x4000 | 1);
    gm.add_page(0x3000, pd);

    let mut pt = [0u8; 4096];
    put_u64(&mut pt, 4 * 8, 0x5000 | 1);
    put_u64(&mut pt, 5 * 8, 0x6000 | 1);
    gm.add_page(0x4000, pt);

    gm.add_page(0x5000, [0u8; 4096]);
    gm.add_page(0x6000, [0u8; 4096]);

    // Low bits of the root hold flags: the walk must mask them off too.
    (gm, 0x1000 | 0x5)
}

#[test]
fn test_chunked() {
    let gva: u64 = 0xfffff;
    let r = chunked(gva, 1);
    println!("{:?}", r.first());
    assert_eq!(r.first().copied(), Some((0xfffff, 1)));
    assert_eq!(r.get(1).copied(), None);

    let r = chunked(gva, 2);
    assert_eq!(r.first().copied(), Some((0xfffff, 1)));
    assert_eq!(r.get(1).copied(), Some((0x100000, 1)));
    assert_eq!(r.get(2).copied(), None);
}

#[test]
fn chunked_zero_length_is_empty() {
    assert_eq!(chunked(0x12345, 0), vec![]);
}

#[test]
fn chunked_covers_aligned_span() {
    let r = chunked(0x1000, 8192);
    assert_eq!(r, vec![(0x1000, 4096), (0x2000, 4096)]);
}

#[test]
fn chunked_covers_unaligned_span() {
    let r = chunked(0xff0, 0x2000);
    assert_eq!(r, vec![(0xff0, 0x10), (0x1000, 4096), (0x2000, 4096 - 0x10)]);
    let total: usize = r.iter().map(|p| p.1).sum();
    assert_eq!(total, 0x2000);
    for &(start, len) in &r {
        assert_eq!(start & !0xfff, (start + len as u64 - 1) & !0xfff);
    }
}

#[test]
fn helpers_mask_and_index() {
    assert_eq!(page_off(0x1234), (0x1000, 0x234));
    assert_eq!(page_offset(GVA), 0x56);
    assert_eq!(pml4_index(GVA), 1);
    assert_eq!(pdpt_index(GVA), 2);
    assert_eq!(pd_index(GVA), 3);
    assert_eq!(pt_index(GVA), 4);
    // Flag bits and bits above the 52-bit physical limit leave the base.
    assert_eq!(base_flags(0x8000_0000_0000_2fff), (0x2000, 0x1ff));
    assert_eq!(pte_flags(0x8000_0000_0000_2fff), (0x2000, 0xfff));
}

#[test]
fn translate_walks_four_levels() {
    let (gm, cr3) = mapped_store();
    assert_eq!(gm.translate_gva(cr3, GVA), Ok(0x5056));
}

#[test]
fn translate_is_deterministic() {
    let (gm, cr3) = mapped_store();
    let first = gm.translate_gva(cr3, GVA);
    let second = gm.translate_gva(cr3, GVA);
    assert_eq!(first, second);
    assert_eq!(first, Ok(0x5056));
}

#[test]
fn translate_fails_per_level_when_present_bit_clear() {
    // PML4 entry not present.
    let (mut gm, cr3) = mapped_store();
    let mut pml4 = [0u8; 4096];
    put_u64(&mut pml4, 1 * 8, 0x2000);
    gm.add_page(0x1000, pml4);
    assert_eq!(gm.translate_gva(cr3, GVA), Err(VirtMemError::Pml4eNotPresent));

    // PDPT entry not present.
    let (mut gm, cr3) = mapped_store();
    let mut pdpt = [0u8; 4096];
    put_u64(&mut pdpt, 2 * 8, 0x3000);
    gm.add_page(0x2000, pdpt);
    assert_eq!(gm.translate_gva(cr3, GVA), Err(VirtMemError::PdpteNotPresent));

    // PD entry not present.
    let (mut gm, cr3) = mapped_store();
    let mut pd = [0u8; 4096];
    put_u64(&mut pd, 3 * 8, 0x4000);
    gm.add_page(0x3000, pd);
    assert_eq!(gm.translate_gva(cr3, GVA), Err(VirtMemError::PdeNotPresent));

    // PT entry not present.
    let (mut gm, cr3) = mapped_store();
    let mut pt = [0u8; 4096];
    put_u64(&mut pt, 4 * 8, 0x5000);
    gm.add_page(0x4000, pt);
    assert_eq!(gm.translate_gva(cr3, GVA), Err(VirtMemError::PteNotPresent));
}

#[test]
fn translate_huge_page_maps_low_30_bits() {
    let (mut gm, cr3) = mapped_store();
    let mut pdpt = [0u8; 4096];
    put_u64(&mut pdpt, 2 * 8, 0x4000_0000 | 1 | 0x80);
    gm.add_page(0x2000, pdpt);
    // PD and PT pages are gone entirely: the shortcut must not read them.
    gm.del_page(0x3000);
    gm.del_page(0x4000);
    assert_eq!(gm.translate_gva(cr3, GVA), Ok(0x4000_0000 + (GVA & 0x3fff_ffff)));
}

#[test]
fn translate_large_page_maps_low_21_bits() {
    let (mut gm, cr3) = mapped_store();
    let mut pd = [0u8; 4096];
    put_u64(&mut pd, 3 * 8, 0x0060_0000 | 1 | 0x80);
    gm.add_page(0x3000, pd);
    // The PT page is gone entirely: the shortcut must not read it.
    gm.del_page(0x4000);
    assert_eq!(gm.translate_gva(cr3, GVA), Ok(0x0060_0000 + (GVA & 0x1f_ffff)));
}

#[test]
fn translate_missing_table_page_propagates_store_error() {
    let gm = GpaManager::new();
    assert_eq!(gm.translate_gva(0x9000, GVA), Err(VirtMemError::MissingPage(0x9000)));
}

#[test]
fn spanning_physical_access_is_rejected() {
    // Even with no pages at all, the spanning check comes first.
    let mut gm = GpaManager::new();
    assert_eq!(gm.read_gpa(0xffe, 4), Err(VirtMemError::SpanningPage));
    assert_eq!(gm.write_gpa(0xffe, &[1, 2, 3, 4]), Err(VirtMemError::SpanningPage));

    let (mut gm, _) = mapped_store();
    assert_eq!(gm.read_gpa(0x5ffc, 8), Err(VirtMemError::SpanningPage));
    assert_eq!(gm.write_gpa(0x5ffc, &[0u8; 8]), Err(VirtMemError::SpanningPage));
    // Up to the page's very end is fine.
    assert_eq!(gm.read_gpa(0x5ffc, 4), Ok(vec![0, 0, 0, 0]));
}

#[test]
fn missing_page_read_names_the_page_base() {
    let gm = GpaManager::new();
    assert_eq!(gm.read_gpa(0x5120, 4), Err(VirtMemError::MissingPage(0x5000)));
}

#[test]
fn write_then_read_round_trips() {
    let (mut gm, _) = mapped_store();
    let data = [0xde, 0xad, 0xbe, 0xef];
    assert_eq!(gm.write_gpa(0x5120, &data), Ok(()));
    assert_eq!(gm.read_gpa(0x5120, 4), Ok(vec![0xde, 0xad, 0xbe, 0xef]));
    // Neighbouring bytes stay untouched.
    assert_eq!(gm.read_gpa(0x511f, 1), Ok(vec![0]));
    assert_eq!(gm.read_gpa(0x5124, 1), Ok(vec![0]));
}

#[test]
fn write_to_missing_page_is_dropped() {
    let mut gm = GpaManager::new();
    assert_eq!(gm.write_gpa(0x7000, &[1, 2, 3]), Ok(()));
    // No page appears on account of the write.
    assert_eq!(gm.read_gpa(0x7000, 3), Err(VirtMemError::MissingPage(0x7000)));
}

#[test]
fn del_page_makes_reads_fail() {
    let (mut gm, _) = mapped_store();
    assert_eq!(gm.read_gpa(0x5000, 1), Ok(vec![0]));
    gm.del_page(0x5000);
    assert_eq!(gm.read_gpa(0x5000, 1), Err(VirtMemError::MissingPage(0x5000)));
}

#[test]
fn read_gva_crosses_page_boundary() {
    let (mut gm, cr3) = mapped_store();
    // Last 4 bytes of the page at 0x5000, first 4 of the page at 0x6000.
    gm.write_gpa(0x5ffc, &[1, 2, 3, 4]).unwrap();
    gm.write_gpa(0x6000, &[5, 6, 7, 8]).unwrap();
    let vpage = GVA & !0xfff;
    let got = gm.read_gva(cr3, vpage + 0xffc, 8);
    assert_eq!(got, Ok(vec![1, 2, 3, 4, 5, 6, 7, 8]));
}

#[test]
fn write_gva_crosses_page_boundary() {
    let (mut gm, cr3) = mapped_store();
    let vpage = GVA & !0xfff;
    assert_eq!(gm.write_gva(cr3, vpage + 0xffe, &[9, 8, 7, 6]), Ok(()));
    assert_eq!(gm.read_gpa(0x5ffe, 2), Ok(vec![9, 8]));
    assert_eq!(gm.read_gpa(0x6000, 2), Ok(vec![7, 6]));
    assert_eq!(gm.read_gva(cr3, vpage + 0xffe, 4), Ok(vec![9, 8, 7, 6]));
}

#[test]
fn read_gva_fails_when_translation_fails() {
    let (mut gm, cr3) = mapped_store();
    let vpage = GVA & !0xfff;
    // The next virtual page after vpage + 0x1000 has no PT entry (index 6).
    let r = gm.read_gva(cr3, vpage + 0x1000 + 0xfff, 2);
    assert_eq!(r, Err(VirtMemError::PteNotPresent));
    // A write that fails on its second chunk has still applied the first.
    let r = gm.write_gva(cr3, vpage + 0x1000 + 0xfff, &[0xaa, 0xbb]);
    assert_eq!(r, Err(VirtMemError::PteNotPresent));
    assert_eq!(gm.read_gpa(0x6fff, 1), Ok(vec![0xaa]));
}

#[test]
fn fixed_width_virtual_reads_are_little_endian() {
    let (mut gm, cr3) = mapped_store();
    gm.write_gpa(0x5056, &[0x11, 0x22, 0x33, 0x44, 0x55, 0x66, 0x77, 0x88]).unwrap();
    assert_eq!(gm.read_gva_u64(cr3, GVA), Ok(0x8877_6655_4433_2211));
    assert_eq!(gm.read_gva_u32(cr3, GVA), Ok(0x4433_2211));
    assert_eq!(gm.read_gva_u16(cr3, GVA), Ok(0x2211));
    assert_eq!(gm.read_gva_u8(cr3, GVA), Ok(0x11));
    assert_eq!(gm.read_gpa_u64(0x5056), Ok(0x8877_6655_4433_2211));
    assert_eq!(gm.read_gpa_u32(0x5056), Ok(0x4433_2211));
    assert_eq!(gm.read_gpa_u16(0x5056), Ok(0x2211));
    assert_eq!(gm.read_gpa_u8(0x5056), Ok(0x11));
}

#[test]
fn fixed_width_reads_report_translation_errors() {
    let gm = GpaManager::new();
    assert_eq!(gm.read_gva_u64(0x9000, GVA), Err(VirtMemError::MissingPage(0x9000)));
    assert_eq!(gm.read_gpa_u64(0x9008), Err(VirtMemError::MissingPage(0x9000)));
}

#[test]
fn allocator_hands_out_aligned_disjoint_buffers() {
    let mut alloc = Allocator::new();
    assert!(alloc.fits(4096));
    let a = alloc.allocate_physical_memory(4096);
    let b = alloc.allocate_physical_memory(1);
    let c = alloc.allocate_physical_memory(5000);
    for &addr in &[a, b, c] {
        assert_eq!(addr % 4096, 0);
        assert_ne!(addr, 0);
    }
    // Later allocations never overlap earlier ones.
    assert!(a + 4096 <= b);
    assert!(b + 1 <= c);
    assert_eq!(alloc.allocation_count(), 3);
}

#[test]
fn allocator_release_frees_every_allocation_once() {
    let mut alloc = Allocator::new();
    let n = 5;
    for i in 0..n {
        alloc.allocate_physical_memory(4096 * (i + 1));
    }
    assert_eq!(alloc.allocation_count(), n);
    // Teardown consumes the allocator: all tracked buffers go together, and
    // no previously returned address can be reached through it afterwards.
    let released = alloc.release();
    assert_eq!(released, n);
}

use vstd::prelude::*;

verus! {

/// Errors of virtual-address translation and of the physical backing store.
///
/// The four `*NotPresent` variants name the paging level whose entry had a
/// clear present bit. `SpanningPage` rejects a physical access that crosses a
/// 4KB boundary. `MissingPage` carries the page-aligned base address of a page
/// that was never added to the store.
#[derive(Copy, Clone, Debug, Eq, PartialEq, Structural, Hash)]
pub enum VirtMemError {
    Pml4eNotPresent,
    PdpteNotPresent,
    PdeNotPresent,
    PteNotPresent,
    SpanningPage,
    MissingPage(u64),
}

} // verus!

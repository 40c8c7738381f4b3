//! Virtual addresses, pages and the user pages of an address space.
use vstd::prelude::*;

verus! {

/// Bytes in a page.
pub const PAGE_SIZE: usize = 4096;

/// Mask of the bits of an Sv39 virtual address.
pub const VA_MASK: u64 = 0x7f_ffff_ffff;

/// Readable.
pub const MAP_R: u8 = 2;
/// Writable.
pub const MAP_W: u8 = 4;
/// Executable.
pub const MAP_X: u8 = 8;
/// Accessible from user mode.
pub const MAP_U: u8 = 16;

/// The Sv39 virtual address that a `usize` stands for: its low 39 bits.
pub open spec fn virt_addr(v: int) -> int {
    v % 0x80_0000_0000
}

/// The page a virtual address lies in.
pub open spec fn vpn_floor(va: int) -> int {
    va / 4096
}

/// The first page boundary at or above a virtual address, as a page number.
pub open spec fn vpn_ceil(va: int) -> int {
    if va == 0 {
        0
    } else {
        (va - 1 + 4096) / 4096
    }
}

/// The first page of the range `[start, start + len)`.
pub open spec fn range_first(start: usize, len: usize) -> int {
    vpn_floor(virt_addr(start as int))
}

/// The page after the last page of the range `[start, start + len)`.
pub open spec fn range_end(start: usize, len: usize) -> int {
    vpn_ceil(virt_addr(start + len))
}

/// The address `start` is page aligned.
pub open spec fn page_aligned(start: usize) -> bool {
    virt_addr(start as int) % 4096 == 0
}

/// A user page that an address space maps, with its permission bits.
#[derive(Clone, Copy, Debug, PartialEq, Eq, Structural)]
pub struct MappedPage {
    pub vpn: usize,
    pub perm: u8,
}

/// The user pages that an address space maps with a valid entry.
#[derive(Debug)]
pub struct AddressSpace {
    pub pages: Vec<MappedPage>,
}

/// Some page of `pages` is `vpn`.
pub open spec fn is_mapped(pages: Seq<MappedPage>, vpn: int) -> bool {
    exists|i: int| 0 <= i < pages.len() && pages[i].vpn == vpn
}

/// Some page in `[lo, hi)` is mapped.
pub open spec fn any_mapped(pages: Seq<MappedPage>, lo: int, hi: int) -> bool {
    exists|v: int| lo <= v < hi && is_mapped(pages, v)
}

/// Every page in `[lo, hi)` is mapped.
pub open spec fn all_mapped(pages: Seq<MappedPage>, lo: int, hi: int) -> bool {
    forall|v: int| lo <= v < hi ==> is_mapped(pages, v)
}

/// The pages `lo, lo + 1, ..., hi - 1`, each with permission `perm` (none when `hi <= lo`).
pub open spec fn new_pages(lo: int, hi: int, perm: u8) -> Seq<MappedPage> {
    if lo < hi {
        Seq::new((hi - lo) as nat, |i: int| MappedPage { vpn: (lo + i) as usize, perm })
    } else {
        Seq::empty()
    }
}

/// `pages` without those in `[lo, hi)`, in order.
pub open spec fn unmapped(pages: Seq<MappedPage>, lo: int, hi: int) -> Seq<MappedPage> {
    pages.filter(|p: MappedPage| !(lo <= p.vpn < hi))
}

/// The low 39 bits of `v`.
pub fn virt_addr_of(v: usize) -> (va: usize)
    ensures
        va == virt_addr(v as int),
{
    let x = v as u64;
    assert(x & 0x7f_ffff_ffffu64 == x % 0x80_0000_0000u64) by (bit_vector);
    assert(x % 0x80_0000_0000u64 <= x) by (bit_vector);
    (x & VA_MASK) as usize
}

/// The page that virtual address `va` lies in.
pub fn floor(va: usize) -> (vpn: usize)
    ensures
        vpn == vpn_floor(va as int),
{
    va / PAGE_SIZE
}

/// The first page boundary at or above the Sv39 virtual address `va`, as a page number.
pub fn ceil(va: usize) -> (vpn: usize)
    requires
        va < 0x80_0000_0000,
    ensures
        vpn == vpn_ceil(va as int),
{
    if va == 0 {
        0
    } else {
        let x = va as u64;
        ((x - 1 + 4096) / 4096) as usize
    }
}

impl AddressSpace {
    /// Whether page `vpn` is mapped.
    pub fn maps(&self, vpn: usize) -> (r: bool)
        ensures
            r == is_mapped(self.pages@, vpn as int),
    {
        let mut i: usize = 0;
        while i < self.pages.len()
            invariant
                0 <= i <= self.pages@.len(),
                forall|j: int| 0 <= j < i ==> self.pages@[j].vpn != vpn,
            decreases self.pages@.len() - i,
        {
            if self.pages[i].vpn == vpn {
                return true;
            }
            i = i + 1;
        }
        false
    }

    /// Maps the pages of `[lo, hi)`, in order, with permission `perm`.
    pub fn map_range(&mut self, lo: usize, hi: usize, perm: u8)
        ensures
            final(self).pages@ == old(self).pages@ + new_pages(lo as int, hi as int, perm),
    {
        if hi <= lo {
            assert(self.pages@ =~= old(self).pages@ + new_pages(lo as int, hi as int, perm));
            return;
        }
        let mut v = lo;
        assert(self.pages@ =~= old(self).pages@ + new_pages(lo as int, v as int, perm));
        while v < hi
            invariant
                lo < hi,
                lo <= v <= hi,
                self.pages@ == old(self).pages@ + new_pages(lo as int, v as int, perm),
            decreases hi - v,
        {
            self.pages.push(MappedPage { vpn: v, perm });
            v = v + 1;
            assert(self.pages@ =~= old(self).pages@ + new_pages(lo as int, v as int, perm));
        }
    }

    /// Unmaps every page in `[lo, hi)`, keeping the others in order.
    pub fn unmap_range(&mut self, lo: usize, hi: usize)
        ensures
            final(self).pages@ == unmapped(old(self).pages@, lo as int, hi as int),
    {
        let ghost ps = old(self).pages@;
        let mut kept: Vec<MappedPage> = Vec::new();
        let mut i: usize = 0;
        while i < self.pages.len()
            invariant
                self.pages@ == ps,
                0 <= i <= ps.len(),
                kept@ == unmapped(ps.take(i as int), lo as int, hi as int),
            decreases ps.len() - i,
        {
            proof {
                reveal(Seq::filter);
                assert(ps.take(i + 1).drop_last() =~= ps.take(i as int));
                assert(ps.take(i + 1).last() == ps[i as int]);
            }
            let p = self.pages[i];
            if !(lo <= p.vpn && p.vpn < hi) {
                kept.push(p);
            }
            i = i + 1;
        }
        assert(ps.take(ps.len() as int) =~= ps);
        self.pages = kept;
    }
}

} // verus!

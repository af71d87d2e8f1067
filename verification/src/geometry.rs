//! Flash geometry: the address window, sector and page sizes, and the
//! arithmetic on them that the planner relies on.
use vstd::prelude::*;

verus! {

/// Start of the memory-mapped flash window on RP2040/RP2350.
pub const FLASH_START: u32 = 0x1000_0000;

/// One past the end of the flash window. Addresses at or above this belong to
/// RAM and are not flashed.
pub const FLASH_END: u32 = 0x2000_0000;

/// Erase granularity: the flash sector.
pub const SECTOR_SIZE: u32 = 4096;

/// Write granularity: the flash page.
pub const PAGE_SIZE: u32 = 256;

/// What a NOR flash cell reads as once erased.
///
/// Bytes inside a written page that no segment covers are filled with this, so
/// the page keeps the value it would have had if it were left alone.
pub const ERASED_BYTE: u8 = 0xFF;

/// Start of the last page of the 32-bit address space.
pub const LAST_PAGE: u32 = 0xFFFF_FF00;

/// Start of the last sector of the 32-bit address space.
pub const LAST_SECTOR: u32 = 0xFFFF_F000;

/// The page that holds address `a`.
pub open spec fn page_of(a: int) -> int {
    a - a % (PAGE_SIZE as int)
}

/// The sector that holds address `a`.
pub open spec fn sector_of(a: int) -> int {
    a - a % (SECTOR_SIZE as int)
}

/// The smallest multiple of the sector size that is at least `a`.
pub open spec fn sector_ceil(a: int) -> int {
    if a % (SECTOR_SIZE as int) == 0 {
        a
    } else {
        sector_of(a) + SECTOR_SIZE
    }
}

/// Every address of a page-aligned block of one page lies in that page.
pub proof fn lemma_page_of_offset(p: int, k: int)
    requires
        p % 256 == 0,
        0 <= k < 256,
    ensures
        page_of(p + k) == p,
        (p + k) % 256 == k,
{
    assert((p + k) % 256 == k) by (nonlinear_arith)
        requires
            p % 256 == 0,
            0 <= k < 256,
    {
        assert(p == 256 * (p / 256));
        assert(p + k == 256 * (p / 256) + k);
    }
}

/// The page of an address is page-aligned, at most the address, and less
/// than a page below it.
pub proof fn lemma_page_of_bounds(a: int)
    requires
        0 <= a,
    ensures
        page_of(a) % 256 == 0,
        page_of(a) <= a < page_of(a) + 256,
{
    assert(page_of(a) % 256 == 0) by (nonlinear_arith)
        requires
            0 <= a,
    {
        assert(a == 256 * (a / 256) + a % 256);
    }
}

/// The sector of an address is sector-aligned, at most the address, and less
/// than a sector below it.
pub proof fn lemma_sector_of_bounds(a: int)
    requires
        0 <= a,
    ensures
        sector_of(a) % 4096 == 0,
        sector_of(a) <= a < sector_of(a) + 4096,
        sector_ceil(a) % 4096 == 0,
        a <= sector_ceil(a) < a + 4096,
{
    assert(sector_of(a) % 4096 == 0) by (nonlinear_arith)
        requires
            0 <= a,
    {
        assert(a == 4096 * (a / 4096) + a % 4096);
    }
    assert((sector_of(a) + 4096) % 4096 == 0) by (nonlinear_arith)
        requires
            sector_of(a) % 4096 == 0,
    {
        assert(sector_of(a) == 4096 * (sector_of(a) / 4096));
    }
}

/// An address lies in the sector that starts at the aligned `s` below it.
pub proof fn lemma_sector_of_unique(s: int, a: int)
    requires
        s % 4096 == 0,
        s <= a < s + 4096,
    ensures
        sector_of(a) == s,
{
    assert(a % 4096 == a - s) by (nonlinear_arith)
        requires
            s % 4096 == 0,
            s <= a < s + 4096,
    {
        assert(s == 4096 * (s / 4096));
        assert(a == 4096 * (s / 4096) + (a - s));
    }
}

} // verus!

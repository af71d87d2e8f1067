//! Pure planning logic: ELF bytes in, flash erase/write plan out.
//!
//! Kept free of USB and filesystem access so the flash geometry rules hold
//! without a device.
use vstd::prelude::*;

use crate::chunks::{
    addr_map, byte_or_erased, chunk_end, chunk_holds, chunk_shaped, in_chunks, page_touched, write_chunks,
    writes_hold,
};
use crate::elf::{elf32_program_headers, elf_header_views, read_program_headers};
use crate::erase::{chunk_erasable, chunk_error, erase_holds, erase_ranges, in_erase, in_spans, span_end, span_start};
use crate::error::PlanError;
use crate::ordered_bytes::has_address_from;
use crate::geometry::{
    lemma_page_of_bounds, lemma_sector_of_bounds, lemma_sector_of_unique, page_of, sector_ceil, sector_of,
    LAST_SECTOR,
};
use crate::segments::{byte_map, flash_map, headers_view, lemma_only_load_headers_count, load_headers, ProgramHeader};

verus! {

/// A device-ready flash operation sequence.
///
/// Every `erase` entry is a `(address, length)` pair aligned to the sector
/// size, and every `write` entry is a `(address, data)` pair whose address is
/// aligned to the page size and whose data length is a whole number of pages,
/// so both can be handed to PICOBOOT unmodified.
///
/// The plan is built from a byte map rather than from segment boundaries: the
/// pages touched by any segment byte are emitted whole, and the bytes in them
/// that no segment covers are filled with the erased value.
///
/// Consecutive pages are coalesced into one write chunk, and adjacent erase
/// sectors into one erase range. Both `erase` and `write` are sorted by
/// ascending address.
#[derive(Debug, PartialEq, Eq)]
pub struct WritePlan {
    /// Sectors to erase, as `(address, length)`, sorted and coalesced.
    pub erase: Vec<(u32, u32)>,
    /// Page-aligned data to write, as `(address, data)`, sorted by address.
    pub write: Vec<(u32, Vec<u8>)>,
}

/// `plan` writes the byte map `m` (see `writes_hold`) and erases exactly the
/// sectors its writes touch, coalesced (see `erase_holds`).
pub open spec fn plan_holds(m: Map<int, u8>, plan: WritePlan) -> bool {
    &&& writes_hold(m, plan.write@)
    &&& erase_holds(plan.write@, plan.erase@)
}

/// Some mapped byte lies in the last sector of the 32-bit address space.
pub open spec fn reaches_last_sector(m: Map<int, u8>) -> bool {
    exists|a: int| #[trigger] m.dom().contains(a) && a >= LAST_SECTOR
}

/// What planning yields for the byte map (or error) `fm`.
pub open spec fn plan_outcome(fm: Result<Map<int, u8>, PlanError>, r: Result<WritePlan, PlanError>) -> bool {
    match fm {
        Err(e) => r == Err::<WritePlan, PlanError>(e),
        Ok(m) => if reaches_last_sector(m) {
            r == Err::<WritePlan, PlanError>(PlanError::LastSectorReached)
        } else {
            r matches Ok(plan) && plan_holds(m, plan)
        },
    }
}

/// Builds the erase ranges and page-aligned writes for the flash-resident
/// PT_LOAD segments described by `headers`.
pub fn plan_from_headers(headers: &Vec<ProgramHeader>) -> (r: Result<WritePlan, PlanError>)
    ensures
        plan_outcome(flash_map(headers_view(headers@)), r),
{
    let bytes = match byte_map(headers) {
        Ok(b) => b,
        Err(e) => return Err(e),
    };
    let ghost m = addr_map(bytes@);
    if has_address_from(&bytes, LAST_SECTOR) {
        proof {
            let k = choose|k: u32| #[trigger] bytes@.contains_key(k) && k >= LAST_SECTOR;
            assert(m.dom().contains(k as int));
        }
        return Err(PlanError::LastSectorReached);
    }
    proof {
        assert forall|a: int| #[trigger] m.dom().contains(a) implies a < LAST_SECTOR by {
            assert(bytes@.contains_key(a as u32));
        }
    }
    let write = write_chunks(&bytes);
    proof {
        // every chunk ends at or before the last sector
        assert forall|i: int| 0 <= i < write@.len() implies chunk_error(#[trigger] write@[i]) is None
            && chunk_erasable(write@[i]) by {
            let c = write@[i];
            assert(chunk_shaped(c));
            assert(chunk_holds(m, c));
            let k = c.1@.len() - 1;
            assert(c.1@[k] == byte_or_erased(m, c.0 + k));
            assert(page_touched(m, page_of(c.0 + k)));
            let a = choose|a: int| m.dom().contains(a) && page_of(a) == page_of(c.0 + k);
            assert(a < LAST_SECTOR);
            lemma_page_of_bounds(a);
            lemma_page_of_bounds(c.0 + k);
            assert(page_of(a) <= LAST_SECTOR - 256) by (nonlinear_arith)
                requires page_of(a) % 256 == 0, page_of(a) <= a, a < LAST_SECTOR, LAST_SECTOR == 0xFFFF_F000;
        }
    }
    let erase = match erase_ranges(&write) {
        Ok(e) => e,
        Err(e) => {
            proof {
                let i = choose|i: int| 0 <= i < write@.len() && chunk_error(#[trigger] write@[i]) is Some;
            }
            return Err(e);
        },
    };
    Ok(WritePlan { erase, write })
}

/// Builds the erase ranges and page-aligned writes for the flash-resident
/// PT_LOAD segments of `elf`.
///
/// Segments outside the flash window (RAM-resident code, for instance) and
/// segments with no file content are dropped; it is an error for none to
/// remain, and an error for two segments to claim the same byte address.
pub fn write_plan(elf: &[u8]) -> (r: Result<WritePlan, PlanError>)
    ensures
        match elf32_program_headers(elf@) {
            None => (r matches Err(e) && e is NotElf),
            Some(named) => plan_outcome(flash_map(elf_header_views(named, elf@)), r),
        },
{
    match read_program_headers(elf) {
        Err(cause) => Err(PlanError::NotElf { cause }),
        Ok(headers) => plan_from_headers(&headers),
    }
}

/// Every byte that a plan writes lies in a range that the plan erases first.
pub proof fn lemma_written_bytes_are_erased(m: Map<int, u8>, plan: WritePlan, i: int, k: int)
    requires
        plan_holds(m, plan),
        0 <= i < plan.write@.len(),
        0 <= k < plan.write@[i].1@.len(),
    ensures
        in_erase(plan.erase@, plan.write@[i].0 + k),
{
    let c = plan.write@[i];
    let x = c.0 + k;
    lemma_sector_of_bounds(c.0 as int);
    lemma_sector_of_bounds(chunk_end(c));
    assert(span_start(c) <= x < span_end(c));
    assert(in_spans(plan.write@, x));
}

/// A plan erases no sector that it does not write a byte into: erasing is
/// minimal.
pub proof fn lemma_erased_sectors_are_written(m: Map<int, u8>, plan: WritePlan, x: int)
    requires
        plan_holds(m, plan),
        in_erase(plan.erase@, x),
    ensures
        exists|i: int, k: int|
            0 <= i < plan.write@.len() && 0 <= k < plan.write@[i].1@.len() && #[trigger] sector_of(
                plan.write@[i].0 + k,
            ) == sector_of(x),
{
    assert(in_spans(plan.write@, x));
    let i = choose|i: int| 0 <= i < plan.write@.len() && span_start(#[trigger] plan.write@[i]) <= x < span_end(plan.write@[i]);
    let c = plan.write@[i];
    assert(chunk_shaped(c));
    let end = chunk_end(c);
    lemma_sector_of_bounds(c.0 as int);
    lemma_sector_of_bounds(end);
    lemma_sector_of_bounds(x);
    let s0 = sector_of(c.0 as int);
    if x < s0 + 4096 {
        lemma_sector_of_unique(s0, x);
        assert(sector_of(c.0 + 0) == sector_of(x));
    } else if x < end {
        assert(sector_of(c.0 + (x - c.0)) == sector_of(x));
    } else {
        assert(x < sector_ceil(end));
        assert(end % 4096 != 0);
        let s1 = sector_of(end);
        lemma_sector_of_unique(s1, x);
        lemma_sector_of_bounds(end - 1);
        assert(s1 <= end - 1);
        lemma_sector_of_unique(s1, end - 1);
        assert(sector_of(c.0 + (end - 1 - c.0)) == sector_of(x));
    }
}

/// Every byte that a flash-resident segment places is written at its
/// address with its value.
pub proof fn lemma_segment_bytes_are_written(m: Map<int, u8>, plan: WritePlan, a: int)
    requires
        plan_holds(m, plan),
        m.dom().contains(a),
    ensures
        exists|i: int, k: int|
            0 <= i < plan.write@.len() && 0 <= k < plan.write@[i].1@.len() && plan.write@[i].0 + k == a
                && #[trigger] plan.write@[i].1@[k] == m[a],
{
    assert(in_chunks(plan.write@, a));
    let i = choose|i: int| 0 <= i < plan.write@.len() && plan.write@[i].0 <= a < chunk_end(#[trigger] plan.write@[i]);
    let c = plan.write@[i];
    assert(chunk_holds(m, c));
    let k = a - c.0;
    assert(c.1@[k] == byte_or_erased(m, c.0 + k));
}

/// Planning only looks at `PT_LOAD` headers: a plan (or error) is what
/// planning yields for a header list exactly when it is what planning yields
/// for the same list with every header of another type removed.
pub proof fn lemma_plan_ignores_other_headers(hs: Seq<(u32, u32, Option<Seq<u8>>)>, r: Result<WritePlan, PlanError>)
    ensures
        plan_outcome(flash_map(hs), r) == plan_outcome(flash_map(load_headers(hs)), r),
{
    lemma_only_load_headers_count(hs);
}

} // verus!

//! Why a flash plan could not be built.
use vstd::prelude::*;

verus! {

/// The error that `object` reports when it cannot read a file.
#[verifier::external_type_specification]
#[verifier::external_body]
pub struct ExObjectReadError(object::read::Error);

/// The reasons an ELF file cannot be turned into a flash plan.
#[derive(Debug, Clone, Copy, PartialEq, Eq)]
pub enum PlanError {
    /// The input is not a 32-bit ELF file; `cause` is why `object` rejected it.
    NotElf { cause: object::read::Error },
    /// A `PT_LOAD` segment's file range lies outside the ELF file.
    SegmentOutsideFile,
    /// A segment starting at `base` runs past the end of the 32-bit address space.
    SegmentWraps { base: u32 },
    /// Two `PT_LOAD` segments claim the flash byte at `addr`, so the ELF cannot
    /// be flashed unambiguously.
    Overlap { addr: u32 },
    /// No loadable segment lies in the flash window; nothing to flash.
    NothingToFlash,
    /// A write chunk at `addr` is too large for a 32-bit length.
    ChunkTooLarge { addr: u32 },
    /// A write chunk at `addr` runs past the end of the 32-bit address space.
    ChunkWraps { addr: u32 },
    /// A mapped byte lies in the last sector of the 32-bit address space,
    /// whose erase range cannot be expressed with 32-bit addresses.
    LastSectorReached,
}

/// The one-line description of each error.
pub open spec fn plan_error_text(e: PlanError) -> Seq<char> {
    match e {
        PlanError::NotElf { .. } => "input is not a 32-bit ELF file"@,
        PlanError::SegmentOutsideFile => "PT_LOAD segment data lies outside the ELF file"@,
        PlanError::SegmentWraps { .. } => "segment wraps past the address space"@,
        PlanError::Overlap { .. } => "segments overlap: two PT_LOAD segments claim the same flash byte, so the ELF cannot be flashed unambiguously"@,
        PlanError::NothingToFlash => "no loadable segment lies in the flash window [0x10000000, 0x20000000); nothing to flash"@,
        PlanError::ChunkTooLarge { .. } => "chunk is too large for a u32 length"@,
        PlanError::ChunkWraps { .. } => "chunk wraps past the address space"@,
        PlanError::LastSectorReached => "a segment reaches the last sector of the address space, which cannot be erased"@,
    }
}

impl PlanError {
    /// A one-line description of the error.
    pub fn describe(&self) -> (s: &'static str)
        ensures
            s@ == plan_error_text(*self),
    {
        match self {
            PlanError::NotElf { .. } => "input is not a 32-bit ELF file",
            PlanError::SegmentOutsideFile => "PT_LOAD segment data lies outside the ELF file",
            PlanError::SegmentWraps { .. } => "segment wraps past the address space",
            PlanError::Overlap { .. } => "segments overlap: two PT_LOAD segments claim the same flash byte, so the ELF cannot be flashed unambiguously",
            PlanError::NothingToFlash => "no loadable segment lies in the flash window [0x10000000, 0x20000000); nothing to flash",
            PlanError::ChunkTooLarge { .. } => "chunk is too large for a u32 length",
            PlanError::ChunkWraps { .. } => "chunk wraps past the address space",
            PlanError::LastSectorReached => "a segment reaches the last sector of the address space, which cannot be erased",
        }
    }
}

} // verus!

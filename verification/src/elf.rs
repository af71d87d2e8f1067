//! Reading the program headers of a 32-bit ELF file with the `object` crate.
use vstd::prelude::*;

use crate::segments::{headers_view, ProgramHeader};

verus! {

/// What `object` reads from a 32-bit ELF file: `None` when
/// `ElfFile32::<Endianness>::parse` rejects the bytes, else each program
/// header's `(p_type, p_offset, p_filesz, p_paddr)`, in table order.
pub uninterp spec fn elf32_program_headers(elf: Seq<u8>) -> Option<Seq<(u32, u32, u32, u32)>>;

/// The bytes of `elf` from `offset` on, `size` of them, when they lie inside it.
pub open spec fn file_range(elf: Seq<u8>, offset: u32, size: u32) -> Option<Seq<u8>> {
    if offset + size <= elf.len() {
        Some(elf.subrange(offset as int, offset + size))
    } else {
        None
    }
}

/// The program headers of `elf` as the planner reads them: type, physical
/// address, and the segment's bytes when its file range lies inside the file.
pub open spec fn elf_header_views(named: Seq<(u32, u32, u32, u32)>, elf: Seq<u8>) -> Seq<(u32, u32, Option<Seq<u8>>)> {
    named.map_values(|t: (u32, u32, u32, u32)| (t.0, t.3, file_range(elf, t.1, t.2)))
}

/// Parses `elf` with `object::read::elf::ElfFile32::<Endianness>::parse` and
/// reads every program header of `elf_program_headers()` with the
/// `object::read::elf::ProgramHeader` accessors `p_type`, `p_paddr` and
/// `data`.
///
/// Claimed: the result is an error exactly when parsing fails; otherwise it has
/// one entry per header of the named result, in order, with that header's type
/// and physical address, and with `data` being the `p_filesz` bytes at
/// `p_offset` when they lie inside the file and `None` otherwise, which is what
/// `ProgramHeader::data` does on a byte slice (`read_bytes_at`). What `parse`
/// accepts and how it reads the header table is left to the name. `object` is
/// built with its `unaligned` feature, so its header types have alignment 1
/// and parsing depends on the bytes alone, not on where the buffer lies. Which
/// `object::read::Error` comes back on failure is left unsaid: it is `object`'s
/// own message, carried through for display.
#[verifier::external_body]
pub(crate) fn read_program_headers(elf: &[u8]) -> (r: Result<Vec<ProgramHeader>, object::read::Error>)
    ensures
        r is Ok <==> elf32_program_headers(elf@) is Some,
        r matches Ok(v) ==> headers_view(v@) == elf_header_views(elf32_program_headers(elf@).unwrap(), elf@),
{
    let file = object::read::elf::ElfFile32::<object::Endianness>::parse(elf)?;
    let endian = file.endian();
    Ok(file.elf_program_headers().iter().map(|h| ProgramHeader {
        p_type: object::read::elf::ProgramHeader::p_type(h, endian),
        p_paddr: object::read::elf::ProgramHeader::p_paddr(h, endian),
        data: object::read::elf::ProgramHeader::data(h, endian, elf).ok().map(|d| d.to_vec()),
    }).collect())
}

} // verus!

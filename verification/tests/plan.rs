use std::collections::BTreeMap;

use drooling::chunks::write_chunks;
use drooling::erase::erase_ranges;
use drooling::error::PlanError;
use drooling::plan::{plan_from_headers, write_plan};
use drooling::segments::{byte_map, ProgramHeader, PT_LOAD};

/// Builds a minimal 32-bit little-endian ELF carrying `segments` as
/// PT_LOAD program headers, so the planner can be exercised without a
/// linker.
///
/// Each segment is given as `(paddr, data)`. Segment data is laid out back
/// to back after the program header table.
fn elf_with_segments(segments: &[(u32, &[u8])]) -> Vec<u8> {
    let headers: Vec<(u32, u32, &[u8])> = segments.iter().map(|(paddr, data)| (1, *paddr, *data)).collect();
    elf_with_headers(&headers)
}

/// Like `elf_with_segments`, with each header given as `(p_type, paddr, data)`.
fn elf_with_headers(segments: &[(u32, u32, &[u8])]) -> Vec<u8> {
    const EHDR_SIZE: usize = 52;
    const PHDR_SIZE: usize = 32;

    let phoff = EHDR_SIZE;
    let data_start = phoff + PHDR_SIZE * segments.len();

    let mut out = Vec::new();

    // ELF header: 32-bit, little-endian, ET_EXEC, EM_ARM.
    out.extend_from_slice(&[0x7f, b'E', b'L', b'F']);
    out.push(1); // EI_CLASS = ELFCLASS32
    out.push(1); // EI_DATA  = ELFDATA2LSB
    out.push(1); // EI_VERSION
    out.push(0); // EI_OSABI
    out.extend_from_slice(&[0; 8]); // EI_ABIVERSION + padding
    out.extend_from_slice(&2u16.to_le_bytes()); // e_type = ET_EXEC
    out.extend_from_slice(&40u16.to_le_bytes()); // e_machine = EM_ARM
    out.extend_from_slice(&1u32.to_le_bytes()); // e_version
    out.extend_from_slice(&0u32.to_le_bytes()); // e_entry
    out.extend_from_slice(&(phoff as u32).to_le_bytes()); // e_phoff
    out.extend_from_slice(&0u32.to_le_bytes()); // e_shoff
    out.extend_from_slice(&0u32.to_le_bytes()); // e_flags
    out.extend_from_slice(&(EHDR_SIZE as u16).to_le_bytes()); // e_ehsize
    out.extend_from_slice(&(PHDR_SIZE as u16).to_le_bytes()); // e_phentsize
    out.extend_from_slice(&(segments.len() as u16).to_le_bytes()); // e_phnum
    out.extend_from_slice(&0u16.to_le_bytes()); // e_shentsize
    out.extend_from_slice(&0u16.to_le_bytes()); // e_shnum
    out.extend_from_slice(&0u16.to_le_bytes()); // e_shstrndx
    assert_eq!(out.len(), EHDR_SIZE, "ELF header must be 52 bytes");

    // Program header table.
    let mut offset = data_start;
    for (p_type, paddr, data) in segments {
        out.extend_from_slice(&p_type.to_le_bytes()); // p_type
        out.extend_from_slice(&(offset as u32).to_le_bytes()); // p_offset
        out.extend_from_slice(&paddr.to_le_bytes()); // p_vaddr
        out.extend_from_slice(&paddr.to_le_bytes()); // p_paddr
        out.extend_from_slice(&(data.len() as u32).to_le_bytes()); // p_filesz
        out.extend_from_slice(&(data.len() as u32).to_le_bytes()); // p_memsz
        out.extend_from_slice(&5u32.to_le_bytes()); // p_flags = R+X
        out.extend_from_slice(&4u32.to_le_bytes()); // p_align
        offset += data.len();
    }
    assert_eq!(out.len(), data_start, "program headers must be contiguous");

    for (_, _, data) in segments {
        out.extend_from_slice(data);
    }
    out
}

#[test]
fn sub_page_segment_fills_the_rest_of_the_page_with_erased_bytes() {
    let elf = elf_with_segments(&[(0x1000_0000, &[0xAB; 300])]);

    let plan = write_plan(&elf).expect("the segment lies in flash");

    assert_eq!(plan.erase, vec![(0x1000_0000, 4096)]);
    assert_eq!(plan.write.len(), 1);
    let (addr, data) = &plan.write[0];
    assert_eq!(*addr, 0x1000_0000);
    assert_eq!(data.len(), 512, "300 bytes span two 256-byte pages");
    assert_eq!(&data[..300], &[0xAB; 300]);
    assert_eq!(&data[300..], &[0xFF; 212], "gap bytes read as erased flash");
}

#[test]
fn ram_segment_is_dropped() {
    let elf = elf_with_segments(&[
        (0x1000_0000, &[0x11; 256]),
        (0x2000_0000, &[0x22; 100]),
    ]);

    let plan = write_plan(&elf).expect("the flash segment survives");

    assert_eq!(plan.write.len(), 1, "only the flash segment is planned");
    let (addr, data) = &plan.write[0];
    assert_eq!(*addr, 0x1000_0000);
    assert_eq!(data.len(), 256);
    assert_eq!(&data[..], &[0x11; 256]);
}

#[test]
fn page_aligned_segment_offset_into_a_sector_erases_the_whole_sector() {
    let elf = elf_with_segments(&[(0x1000_0100, &[0x5A; 256])]);

    let plan = write_plan(&elf).expect("the segment lies in flash");

    assert_eq!(plan.erase, vec![(0x1000_0000, 4096)]);
    assert_eq!(plan.write, vec![(0x1000_0100, vec![0x5A; 256])]);
}

#[test]
fn misaligned_segment_is_padded_back_to_its_page() {
    let elf = elf_with_segments(&[(0x1000_01c0, &[0x11; 64])]);

    let plan = write_plan(&elf).expect("a misaligned start is legal");

    assert_eq!(plan.erase, vec![(0x1000_0000, 4096)]);
    assert_eq!(plan.write.len(), 1);
    let (addr, data) = &plan.write[0];
    assert_eq!(*addr, 0x1000_0100, "the write starts at the page boundary");
    assert_eq!(data.len(), 256);
    assert_eq!(&data[..192], &[0xFF; 192], "bytes before the segment stay erased");
    assert_eq!(&data[192..], &[0x11; 64]);
}

#[test]
fn consecutive_pages_coalesce_into_one_chunk() {
    let elf = elf_with_segments(&[
        (0x1000_0000, &[0x01; 4096]),
        (0x1000_1000, &[0x02; 256]),
    ]);

    let plan = write_plan(&elf).expect("both segments lie in flash");

    assert_eq!(
        plan.erase,
        vec![(0x1000_0000, 8192)],
        "adjacent sectors coalesce into a single erase range"
    );
    assert_eq!(plan.write.len(), 1, "consecutive pages form one chunk");
    let (addr, data) = &plan.write[0];
    assert_eq!(*addr, 0x1000_0000);
    assert_eq!(data.len(), 4352);
    assert_eq!(&data[..4096], &[0x01; 4096]);
    assert_eq!(&data[4096..], &[0x02; 256]);
}

#[test]
fn adjacent_segments_share_a_page() {
    let elf = elf_with_segments(&[
        (0x1000_0000, &[0xAA; 100]),
        (0x1000_0064, &[0xBB; 100]),
    ]);

    let plan = write_plan(&elf).expect("neither segment overlaps the other");

    assert_eq!(plan.write.len(), 1);
    let (addr, data) = &plan.write[0];
    assert_eq!(*addr, 0x1000_0000);
    assert_eq!(data.len(), 256);
    assert_eq!(&data[..100], &[0xAA; 100]);
    assert_eq!(&data[100..200], &[0xBB; 100]);
    assert_eq!(&data[200..], &[0xFF; 56]);
}

#[test]
fn overlapping_segments_are_rejected() {
    let elf = elf_with_segments(&[
        (0x1000_0000, &[0xAA; 200]),
        (0x1000_0080, &[0xBB; 200]),
    ]);

    let err = write_plan(&elf).expect_err("overlapping segments must be rejected");

    let message = err.describe();
    assert!(
        message.contains("overlap"),
        "error should name the overlap, got: {message}"
    );
}

#[test]
fn overlap_names_the_first_shared_address() {
    let elf = elf_with_segments(&[
        (0x1000_0000, &[0xAA; 200]),
        (0x1000_0080, &[0xBB; 200]),
    ]);
    assert_eq!(write_plan(&elf), Err(PlanError::Overlap { addr: 0x1000_0080 }));

    // a later segment that starts below an earlier one overlaps at the earlier one's start
    let elf = elf_with_segments(&[
        (0x1000_0100, &[0xAA; 16]),
        (0x1000_0000, &[0xBB; 0x200]),
    ]);
    assert_eq!(write_plan(&elf), Err(PlanError::Overlap { addr: 0x1000_0100 }));
}

#[test]
fn segments_out_of_order_are_sorted_and_gaps_split_chunks() {
    let elf = elf_with_segments(&[
        (0x1000_2000, &[0x33; 10]),
        (0x1000_0000, &[0x11; 10]),
        (0x1000_0200, &[0x22; 10]),
    ]);
    let plan = write_plan(&elf).expect("disjoint segments");
    assert_eq!(plan.erase, vec![(0x1000_0000, 4096), (0x1000_2000, 4096)]);
    let starts: Vec<u32> = plan.write.iter().map(|(a, _)| *a).collect();
    assert_eq!(starts, vec![0x1000_0000, 0x1000_0200, 0x1000_2000]);
    assert_eq!(&plan.write[0].1[..10], &[0x11; 10]);
    assert_eq!(&plan.write[0].1[10..], &[0xFF; 246]);
    assert_eq!(&plan.write[1].1[..10], &[0x22; 10]);
    assert_eq!(&plan.write[2].1[..10], &[0x33; 10]);
}

#[test]
fn non_load_and_empty_segments_are_skipped() {
    let elf = elf_with_headers(&[
        (6, 0x1000_0000, &[0x99; 16]), // PT_PHDR
        (PT_LOAD, 0x1000_0400, &[]),
        (PT_LOAD, 0x1000_0800, &[0x42; 4]),
    ]);
    let plan = write_plan(&elf).expect("one loadable segment");
    assert_eq!(plan.write.len(), 1);
    assert_eq!(plan.write[0].0, 0x1000_0800);
    assert_eq!(&plan.write[0].1[..4], &[0x42; 4]);
}

#[test]
fn not_an_elf_is_rejected() {
    assert!(matches!(write_plan(b"definitely not an ELF file"), Err(PlanError::NotElf { .. })));
    assert!(matches!(write_plan(&[]), Err(PlanError::NotElf { .. })));
}

#[test]
fn not_an_elf_carries_the_parser_cause() {
    let Err(PlanError::NotElf { cause }) = write_plan(&[]) else {
        panic!("an empty file is not an ELF file");
    };
    let text = cause.to_string();
    assert!(text.contains("ELF"), "the cause names the ELF header, got: {text}");
    let err = write_plan(&[]).expect_err("not an ELF file");
    assert_eq!(err.describe(), "input is not a 32-bit ELF file");
}

#[test]
fn nothing_in_flash_is_rejected() {
    let elf = elf_with_segments(&[(0x2000_0000, &[0x22; 100])]);
    assert_eq!(write_plan(&elf), Err(PlanError::NothingToFlash));
    let elf = elf_with_segments(&[]);
    assert_eq!(write_plan(&elf), Err(PlanError::NothingToFlash));
}

#[test]
fn load_segment_outside_the_file_is_rejected() {
    let mut elf = elf_with_segments(&[(0x1000_0000, &[0x11; 16]), (0x2000_0000, &[0x22; 16])]);
    // point the second (RAM) segment's p_offset past the end of the file
    let phdr = 52 + 32;
    elf[phdr + 4..phdr + 8].copy_from_slice(&0x10_0000u32.to_le_bytes());
    assert_eq!(write_plan(&elf), Err(PlanError::SegmentOutsideFile));
}

#[test]
fn headers_are_planned_directly() {
    let headers = vec![
        ProgramHeader { p_type: PT_LOAD, p_paddr: 0x1000_0010, data: Some(vec![1, 2, 3]) },
        ProgramHeader { p_type: PT_LOAD, p_paddr: 0x1000_1000, data: Some(vec![4]) },
    ];
    let plan = plan_from_headers(&headers).expect("two segments");
    assert_eq!(plan.erase, vec![(0x1000_0000, 8192)]);
    assert_eq!(plan.write.len(), 2);
    assert_eq!(plan.write[0].0, 0x1000_0000);
    assert_eq!(&plan.write[0].1[..19], &[0xFF, 0xFF, 0xFF, 0xFF, 0xFF, 0xFF, 0xFF, 0xFF, 0xFF, 0xFF, 0xFF, 0xFF, 0xFF, 0xFF, 0xFF, 0xFF, 1, 2, 3]);
    assert_eq!(plan.write[1].0, 0x1000_1000);
    assert_eq!(plan.write[1].1[0], 4);
}

#[test]
fn byte_map_lists_bytes_by_address() {
    let headers = vec![
        ProgramHeader { p_type: PT_LOAD, p_paddr: 0x1000_0005, data: Some(vec![7, 8]) },
        ProgramHeader { p_type: PT_LOAD, p_paddr: 0x1000_0000, data: Some(vec![9]) },
        ProgramHeader { p_type: PT_LOAD, p_paddr: 0x0000_0000, data: Some(vec![1]) },
    ];
    let bytes = byte_map(&headers).expect("disjoint");
    let entries: Vec<(u32, u8)> = bytes.into_iter().collect();
    assert_eq!(entries, vec![(0x1000_0000, 9), (0x1000_0005, 7), (0x1000_0006, 8)]);
}

#[test]
fn write_chunks_merges_consecutive_pages_only() {
    let bytes: BTreeMap<u32, u8> = [(0x500u32, 3u8), (0x100, 1), (0x2FF, 2)].into_iter().collect();
    let chunks = write_chunks(&bytes);
    assert_eq!(chunks.len(), 2);
    assert_eq!(chunks[0].0, 0x100);
    assert_eq!(chunks[0].1.len(), 512);
    assert_eq!(chunks[0].1[0], 1);
    assert_eq!(chunks[0].1[511], 2);
    assert_eq!(chunks[1].0, 0x500);
    assert_eq!(chunks[1].1.len(), 256);
}

#[test]
fn erase_ranges_sorts_and_coalesces() {
    let write = vec![(0x3000u32, vec![0u8; 256]), (0x0000, vec![0u8; 4096]), (0x1000, vec![0u8; 10]), (0x1800, vec![])];
    assert_eq!(erase_ranges(&write), Ok(vec![(0x0000, 0x2000), (0x3000, 0x1000)]));
    assert_eq!(erase_ranges(&vec![]), Ok(vec![]));
}

#[test]
fn erase_ranges_rejects_a_wrapping_chunk() {
    let write = vec![(0xFFFF_FF00u32, vec![0u8; 512])];
    assert_eq!(erase_ranges(&write), Err(PlanError::ChunkWraps { addr: 0xFFFF_FF00 }));
}

#[test]
fn plan_erases_exactly_the_sectors_it_writes() {
    let elf = elf_with_segments(&[
        (0x1000_0F80, &[0x01; 0x100]),
        (0x1000_5000, &[0x02; 0x10]),
        (0x1000_7FFF, &[0x03; 2]),
    ]);
    let plan = write_plan(&elf).expect("disjoint segments");
    let erased = |x: u32| plan.erase.iter().any(|(a, l)| *a <= x && x < a + l);
    let mut written_sectors = std::collections::BTreeSet::new();
    for (addr, data) in &plan.write {
        assert_eq!(addr % 256, 0);
        assert_eq!(data.len() % 256, 0);
        for k in 0..data.len() as u32 {
            assert!(erased(addr + k), "written byte {:#x} is erased first", addr + k);
            written_sectors.insert((addr + k) / 4096);
        }
    }
    for (a, l) in &plan.erase {
        assert_eq!(a % 4096, 0);
        assert_eq!(l % 4096, 0);
        for s in (a / 4096)..((a + l) / 4096) {
            assert!(written_sectors.contains(&s), "erased sector {s:#x} holds a written byte");
        }
    }
    assert_eq!(plan.erase, vec![(0x1000_0000, 0x2000), (0x1000_5000, 0x1000), (0x1000_7000, 0x2000)]);
    // every segment byte is written at its address
    let byte_at = |x: u32| {
        plan.write.iter().find(|(a, d)| *a <= x && x < a + d.len() as u32).map(|(a, d)| d[(x - a) as usize])
    };
    assert_eq!(byte_at(0x1000_0F80), Some(0x01));
    assert_eq!(byte_at(0x1000_107F), Some(0x01));
    assert_eq!(byte_at(0x1000_1080), Some(0xFF));
    assert_eq!(byte_at(0x1000_500F), Some(0x02));
    assert_eq!(byte_at(0x1000_7FFF), Some(0x03));
    assert_eq!(byte_at(0x1000_8000), Some(0x03));
    assert_eq!(byte_at(0x1000_8100), None);
}

#[test]
fn misaligned_buffer_plans_like_an_aligned_one() {
    let elf = elf_with_segments(&[(0x1000_0010, &[0x5A; 40]), (0x1000_1000, &[0xA5; 8])]);
    let aligned = write_plan(&elf).expect("a valid ELF");
    for shift in 1..4 {
        let mut buf = vec![0u8; shift];
        buf.extend_from_slice(&elf);
        let shifted = write_plan(&buf[shift..]).expect("the same ELF at an odd address");
        assert_eq!(shifted.erase, aligned.erase, "offset {shift}");
        assert_eq!(shifted.write, aligned.write, "offset {shift}");
    }
}

#[test]
fn erase_ranges_ignore_chunk_order() {
    let a = vec![(0x1000_3000u32, vec![0u8; 256]), (0x1000_0100, vec![1u8; 512]), (0x1000_1000, vec![2u8; 256])];
    let mut b = a.clone();
    b.reverse();
    let mut c = a.clone();
    c.swap(0, 1);
    let expected = Ok(vec![(0x1000_0000, 0x2000), (0x1000_3000, 0x1000)]);
    assert_eq!(erase_ranges(&a), expected);
    assert_eq!(erase_ranges(&b), expected);
    assert_eq!(erase_ranges(&c), expected);
}

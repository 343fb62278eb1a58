use elfex::notes::NT_GNU_BUILD_ID;
use elfex::{ProgramHeader, Segment, SegmentType};
use elfex::{
    ElfBuilder, ElfClass, ElfFile, ElfHeaders, ElfImage, ElfType, Endian, Machine,
    RelocationEntry, SegmentFlags,
};

fn code_flags() -> SegmentFlags {
    SegmentFlags(SegmentFlags::READ | SegmentFlags::EXECUTE)
}

fn two_page_image() -> ElfImage {
    ElfBuilder::new()
        .machine(Machine(Machine::X86_64))
        .elf_type(ElfType::Exec)
        .entry(0x40_1000)
        .add_load(0x40_0000, SegmentFlags(SegmentFlags::READ), vec![0; 0x1000])
        .add_load(0x40_1000, code_flags(), vec![0xf4, 0xc3])
        .build()
}

#[test]
fn a_write_reads_back_at_the_same_image_offset() {
    let mut image = two_page_image();
    assert_eq!(image.write_at_ioff(0x1000, &[0x90, 0x90]), Some(()));
    assert_eq!(image.read_at_ioff(0x1000, 2), Some(&[0x90, 0x90][..]));
    assert_eq!(image.read_ioff(0x1000, 3), Some(vec![0x90, 0x90, 0x00]));
}

#[test]
fn a_write_past_the_file_bytes_is_refused_and_changes_nothing() {
    let mut image = two_page_image();
    let before = image.clone();
    assert_eq!(image.write_at_ioff(0x1001, &[1, 2, 3]), None);
    assert_eq!(image, before);
    assert_eq!(image.write_at_ioff(0x5000, &[1]), None);
}

#[test]
fn the_geometry_rounds_to_pages() {
    let image = two_page_image();
    assert_eq!(image.image_base(), 0x40_0000);
    assert_eq!(image.image_span(), 0x2000);
    assert_eq!(image.runtime_image_base(), image.image_base());
    assert_eq!(image.ioff_to_offset(0x1000), image.segments()[1].header.offset.checked_add(0));
}

#[test]
fn mapping_at_the_preferred_base_matches_the_default_mapping() {
    let image = two_page_image();
    let default = image.to_mapped_image().expect("the image maps");
    let explicit = image
        .to_mapped_image_at(image.image_base())
        .expect("the image maps at its base");
    assert_eq!(default, explicit);
    assert_eq!(default.len(), 0x2000);
    assert_eq!(&default[0..4], b"\x7fELF");
    assert_eq!(&default[0x1000..0x1002], &[0xf4, 0xc3]);
}

#[test]
fn rebasing_moves_a_relative_pointer_by_the_base_change() {
    let image = ElfBuilder::new()
        .machine(Machine(Machine::X86_64))
        .entry(0x40_1000)
        .add_load(0x40_0000, SegmentFlags(SegmentFlags::READ), vec![0; 0x1000])
        .add_load(0x40_1000, code_flags(), 0x40_1234u64.to_le_bytes().to_vec())
        .add_relocations(vec![RelocationEntry {
            offset: 0x40_1000,
            symbol: 0,
            r_type: 8,
            addend: Some(0x1234),
        }])
        .build();
    let moved = image.to_mapped_image_at(0x50_0000).expect("the image maps");
    let mut pointer = [0u8; 8];
    pointer.copy_from_slice(&moved[0x1000..0x1008]);
    assert_eq!(u64::from_le_bytes(pointer), 0x50_1234);
    let kept = image.to_mapped_image().expect("the image maps");
    pointer.copy_from_slice(&kept[0x1000..0x1008]);
    assert_eq!(u64::from_le_bytes(pointer), 0x40_1234);
}

#[test]
fn rebasing_leaves_an_indirect_function_slot_alone() {
    let mut data = 0x40_1234u64.to_le_bytes().to_vec();
    data.extend_from_slice(&0x40_1500u64.to_le_bytes());
    let image = ElfBuilder::new()
        .machine(Machine(Machine::X86_64))
        .entry(0x40_1000)
        .add_load(0x40_0000, SegmentFlags(SegmentFlags::READ), vec![0; 0x1000])
        .add_load(0x40_1000, code_flags(), data)
        .add_relocations(vec![
            RelocationEntry { offset: 0x40_1000, symbol: 0, r_type: 8, addend: Some(0x1234) },
            RelocationEntry { offset: 0x40_1008, symbol: 0, r_type: 37, addend: Some(0x1500) },
        ])
        .build();
    let moved = image.to_mapped_image_at(0x50_0000).expect("the image maps");
    let mut pointer = [0u8; 8];
    pointer.copy_from_slice(&moved[0x1000..0x1008]);
    assert_eq!(u64::from_le_bytes(pointer), 0x50_1234);
    pointer.copy_from_slice(&moved[0x1008..0x1010]);
    assert_eq!(u64::from_le_bytes(pointer), 0x40_1500);
}

#[test]
fn a_mapped_image_parses_at_a_runtime_base() {
    let image = two_page_image();
    let mapped = image.to_mapped_image().expect("the image maps");
    let relocated = ElfImage::parse_mapped_at(&mapped, 0x7f00_0000_0000).expect("the image parses");
    assert_eq!(relocated.runtime_image_base(), 0x7f00_0000_0000);
    assert_eq!(relocated.image_base(), 0x40_0000);
}

#[test]
fn rebuilding_a_parsed_image_keeps_its_section_names_and_bytes() {
    let image = ElfBuilder::new()
        .entry(0x40_1000)
        .add_load(0x40_1000, code_flags(), vec![0xf4])
        .add_note("GNU", NT_GNU_BUILD_ID, vec![1, 2, 3, 4])
        .add_dynamic_needed("libc.so.6")
        .build();
    let names: Vec<String> = image.sections().iter().map(|s| s.name.clone()).collect();
    assert_eq!(
        names,
        vec!["", ".note.GNU", ".dynstr", ".dynamic", ".shstrtab"]
    );
    let bytes = image.try_build().expect("the image serializes");
    let reparsed = ElfImage::parse(&bytes).expect("the bytes parse");
    let again: Vec<String> = reparsed.sections().iter().map(|s| s.name.clone()).collect();
    assert_eq!(again, names);
    assert_eq!(reparsed.read_ioff(0, 1), Some(vec![0xf4]));
    assert_eq!(reparsed.try_build().expect("the image serializes again"), bytes);
}

#[test]
fn trailing_bytes_survive_a_file_round_trip() {
    let bytes = two_page_image().try_build().expect("the image serializes");
    let mut data = bytes.clone();
    data.extend_from_slice(&[0xaa, 0xbb, 0xcc]);
    let file = ElfFile::parse(&data).expect("the file parses");
    assert_eq!(file.trailing(), &[0xaa, 0xbb, 0xcc]);
    assert_eq!(file.try_build().expect("the file serializes"), data);
    assert_eq!(file.image().entry_point(), 0x40_1000);
    assert_eq!(file.entry_point(), 0x40_1000);
}

#[test]
fn a_file_without_trailing_bytes_keeps_none() {
    let bytes = two_page_image().try_build().expect("the image serializes");
    let file = ElfFile::parse(&bytes).expect("the file parses");
    assert!(file.trailing().is_empty());
    let wrapped = ElfFile::new(file.into_image());
    assert!(wrapped.trailing().is_empty());
}

#[test]
fn headers_alone_parse_from_the_serialized_bytes() {
    let bytes = ElfBuilder::new()
        .class(ElfClass::Elf32)
        .endian(Endian::Big)
        .machine(Machine(Machine::I386))
        .entry(0x0804_8000)
        .add_load(0x0804_8000, code_flags(), vec![1, 2, 3])
        .build()
        .try_build()
        .expect("the image serializes");
    let headers = ElfHeaders::from_slice(&bytes).expect("the headers parse");
    assert_eq!(headers.ident.class, ElfClass::Elf32);
    assert_eq!(headers.ident.data, Endian::Big);
    assert_eq!(headers.header.entry, 0x0804_8000);
    assert_eq!(headers.program_headers.len(), 1);
    assert_eq!(headers.program_headers[0].filesz, 3);
}

#[test]
fn an_overlap_names_both_segments_in_decimal() {
    let mut image = two_page_image();
    image.segments_mut()[0].header.memsz = 0x2000;
    let issues = image.validate().issues;
    let overlap = issues
        .iter()
        .find(|issue| issue.code == elfex::validation::ValidationCode::OverlappingSegments)
        .expect("an overlap is reported");
    assert_eq!(overlap.context.as_deref(), Some("segments 0 and 1"));
}

#[test]
fn a_segment_has_no_bytes_past_its_file_data() {
    let segment = Segment::new(
        ProgramHeader {
            kind: SegmentType(SegmentType::LOAD),
            flags: SegmentFlags(6),
            offset: 0,
            vaddr: 0x1000,
            paddr: 0x1000,
            filesz: 2,
            memsz: 0x10,
            align: 0x1000,
        },
        vec![1, 2],
    );
    assert_eq!(segment.data_at_vaddr(0x1001, 4), Some(&[2][..]));
    assert_eq!(segment.data_at_vaddr(0x1002, 4), None);
    assert_eq!(segment.data_at_vaddr(0x1010, 1), None);
}

#[test]
fn the_segment_at_an_image_offset_is_the_loadable_one() {
    let mut image = ElfBuilder::new()
        .entry(0x40_1000)
        .add_load(0x40_1000, SegmentFlags(5), vec![0xf4])
        .add_tls(0x40_1000, vec![0x42], 1, 1)
        .build();
    image.segments_mut().swap(0, 1);
    let segment = image.segment_by_ioff(0).expect("a loadable segment covers the offset");
    assert_eq!(segment.segment_type(), SegmentType(SegmentType::LOAD));
    assert_eq!(segment.data, vec![0xf4]);
    assert_eq!(image.read_at_ioff(0, 1), Some(&[0xf4][..]));
}

#[test]
fn relocations_added_twice_form_one_table() {
    let first = RelocationEntry { offset: 0x40_1000, symbol: 0, r_type: 8, addend: Some(0) };
    let second = RelocationEntry { offset: 0x40_1008, symbol: 0, r_type: 8, addend: Some(0) };
    let image = ElfBuilder::new()
        .entry(0x40_1000)
        .add_load(0x40_1000, SegmentFlags(6), vec![0; 16])
        .add_relocations(vec![first])
        .add_relocations(vec![second])
        .try_build()
        .expect("the image builds");
    let tables = image.relocations().expect("the table parses");
    assert_eq!(tables.len(), 1);
    assert!(tables[0].is_rela);
    assert_eq!(tables[0].entries, vec![first, second]);
}

#[test]
fn notes_come_from_the_note_segments_only() {
    let image = ElfBuilder::new()
        .entry(0x40_1000)
        .add_load(0x40_1000, code_flags(), vec![0xf4])
        .add_note("GNU", NT_GNU_BUILD_ID, vec![1, 2, 3, 4])
        .build();
    let notes = image.notes().expect("the notes parse");
    assert_eq!(notes.len(), 1);
    assert_eq!(notes[0].descriptor(), &[1, 2, 3, 4][..]);
}

#[test]
fn a_layout_past_the_limit_reports_where_it_fails() {
    let mut image = two_page_image();
    image.segments_mut()[1].header.vaddr = 0x1000_0400;
    image.segments_mut()[1].header.align = 0x2000_0000;
    let error = image.try_build().expect_err("the segment lands past the limit");
    assert!(matches!(error.kind(), elfex::ErrorKind::Generic(m) if m == "image is too large"));
    let file = ElfFile::new(image);
    let error = file.try_build().expect_err("the file fails as its image does");
    assert!(matches!(error.kind(), elfex::ErrorKind::Generic(m) if m == "image is too large"));
}

#[test]
fn notes_added_to_a_builder_parse_back_in_order() {
    let image = ElfBuilder::new()
        .entry(0x40_1000)
        .add_load(0x40_1000, code_flags(), vec![0xf4])
        .add_note("GNU", NT_GNU_BUILD_ID, vec![9, 8, 7])
        .add_note("Linux", 7, vec![1, 2, 3, 4, 5])
        .build();
    let notes = image.notes().expect("the notes parse");
    assert_eq!(notes.len(), 2);
    assert_eq!(notes[0].name(), "GNU");
    assert_eq!(notes[0].note_type(), NT_GNU_BUILD_ID);
    assert_eq!(notes[0].descriptor(), &[9, 8, 7][..]);
    assert_eq!(notes[1].name(), "Linux");
    assert_eq!(notes[1].note_type(), 7);
    assert_eq!(notes[1].descriptor(), &[1, 2, 3, 4, 5][..]);
}

#[test]
fn a_file_read_from_a_slice_keeps_its_trailing_bytes() {
    let bytes = two_page_image().try_build().expect("the image serializes");
    let mut data = bytes.clone();
    data.extend_from_slice(&[0x11, 0x22]);
    let reader = elfex::SliceReader::new(&data);
    let file = ElfFile::read_from(&reader).expect("the file reads");
    assert_eq!(file.trailing(), &[0x11, 0x22]);
    assert_eq!(file.try_build().expect("the file serializes"), data);
}

#[test]
fn a_mapped_image_parses_alike_at_any_base() {
    let mapped = two_page_image().to_mapped_image().expect("the image maps");
    let preferred = ElfImage::parse_mapped(&mapped).expect("the image parses");
    let moved = ElfImage::parse_mapped_at(&mapped, 0x7f00_0000_0000).expect("the image parses");
    assert_eq!(moved.runtime_image_base(), 0x7f00_0000_0000);
    assert_eq!(moved.image_base(), preferred.image_base());
    assert_eq!(moved.segments(), preferred.segments());
    assert_eq!(moved.sections(), preferred.sections());
    assert_eq!(moved.header(), preferred.header());
}

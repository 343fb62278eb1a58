use elfex::validation::{ValidationCode, ValidationLevel};
use elfex::{ElfBuilder, ElfImage, ElfType, Machine, SegmentFlags, SegmentType};

fn code_flags() -> SegmentFlags {
    SegmentFlags(SegmentFlags::READ | SegmentFlags::EXECUTE)
}

/// Two abutting loadable segments, an entry point inside the second, and a
/// section-name string table the header names correctly.
fn well_formed() -> ElfImage {
    ElfBuilder::new()
        .machine(Machine(Machine::X86_64))
        .elf_type(ElfType::Exec)
        .entry(0x40_1000)
        .add_load(
            0x40_0000,
            SegmentFlags(SegmentFlags::READ),
            vec![0u8; 0x1000],
        )
        .add_load(0x40_1000, code_flags(), vec![0xf4, 0xc3])
        .build()
}

fn codes(image: &ElfImage) -> Vec<ValidationCode> {
    image
        .validate()
        .issues
        .iter()
        .map(|issue| issue.code)
        .collect()
}

#[test]
fn a_well_formed_image_reports_no_issues() {
    let result = well_formed().validate();
    assert!(result.is_ok(), "unexpected issues: {:?}", result.issues);
}

#[test]
fn an_object_with_no_loadable_segment_is_flagged() {
    let mut image = well_formed();
    image
        .segments_mut()
        .retain(|segment| segment.header.kind.0 != SegmentType::LOAD);
    assert!(codes(&image).contains(&ValidationCode::NoLoadSegments));
}

#[test]
fn an_entry_point_outside_the_mapped_image_is_flagged() {
    let mut image = well_formed();
    image.header_mut().entry = 0xdead_beef;
    let issues = image.validate().issues;
    let issue = issues
        .iter()
        .find(|issue| issue.code == ValidationCode::EntryPointOutOfImage)
        .expect("an out-of-image entry point is reported");
    assert_eq!(issue.level, ValidationLevel::Warning);
    assert_eq!(issue.context.as_deref(), Some("0xdeadbeef"));
}

/// A zero entry point means "no entry", not "address zero", so it must not
/// be reported as lying outside the image.
#[test]
fn a_zero_entry_point_is_not_flagged() {
    let mut image = well_formed();
    image.header_mut().entry = 0;
    assert!(!codes(&image).contains(&ValidationCode::EntryPointOutOfImage));
}

#[test]
fn overlapping_loadable_segments_are_an_error() {
    let mut image = well_formed();
    image.segments_mut()[0].header.memsz = 0x2000;
    let issues = image.validate().issues;
    let issue = issues
        .iter()
        .find(|issue| issue.code == ValidationCode::OverlappingSegments)
        .expect("an overlap is reported");
    assert_eq!(issue.level, ValidationLevel::Error);
    assert!(
        issue.context.is_some(),
        "the issue should name the overlapping segments"
    );
    assert!(!image.validate().is_ok(), "an error fails validation");
}

#[test]
fn a_segment_claiming_more_file_than_memory_bytes_is_an_error() {
    let mut image = well_formed();
    image.segments_mut()[1].header.filesz = 0x4000;
    image.segments_mut()[1].header.memsz = 0x10;
    let issues = image.validate().issues;
    let issue = issues
        .iter()
        .find(|issue| issue.code == ValidationCode::SegmentFileRangeOutOfBounds)
        .expect("filesz beyond memsz is reported");
    assert_eq!(issue.level, ValidationLevel::Error);
}

/// A loader maps whole pages, so `p_offset` and `p_vaddr` must agree
/// modulo `p_align`.
#[test]
fn a_segment_offset_not_congruent_with_its_address_is_flagged() {
    let mut image = well_formed();
    let segment = &mut image.segments_mut()[1];
    segment.header.align = 0x1000;
    segment.header.filesz = 2;
    segment.header.offset = segment.header.vaddr % 0x1000 + 1;
    assert!(codes(&image).contains(&ValidationCode::SegmentVaddrMisaligned));
}

/// The congruence check only applies to segments with file bytes; a
/// `.bss`-only segment has no file range to be congruent with.
#[test]
fn an_empty_file_range_is_not_checked_for_congruence() {
    let mut image = well_formed();
    let segment = &mut image.segments_mut()[1];
    segment.header.align = 0x1000;
    segment.header.filesz = 0;
    segment.header.offset = 1;
    assert!(!codes(&image).contains(&ValidationCode::SegmentVaddrMisaligned));
}

#[test]
fn a_section_name_index_naming_no_string_table_is_flagged() {
    let mut image = well_formed();
    image.header_mut().shnum = 1;
    image.header_mut().shstrndx = u16::MAX;
    assert!(codes(&image).contains(&ValidationCode::InvalidStringTableIndex));
}

/// With no section headers at all there is no string-table index to check.
#[test]
fn no_section_headers_means_no_string_table_check() {
    let mut image = well_formed();
    image.header_mut().shnum = 0;
    image.header_mut().shstrndx = u16::MAX;
    assert!(!codes(&image).contains(&ValidationCode::InvalidStringTableIndex));
}

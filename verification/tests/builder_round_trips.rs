use elfex::notes::NT_GNU_BUILD_ID;
use elfex::{ElfBuilder, ElfClass, ElfImage, ElfType, Endian, Machine, SegmentFlags};

fn code_flags() -> SegmentFlags {
    SegmentFlags(SegmentFlags::READ | SegmentFlags::EXECUTE)
}

#[test]
fn elf64_round_trip() {
    let image = ElfBuilder::new()
        .machine(Machine(Machine::X86_64))
        .elf_type(ElfType::Exec)
        .entry(0x40_1000)
        .add_load(0x40_1000, code_flags(), vec![0xf4])
        .build();

    let bytes = image.try_build().expect("the test ELF serializes");
    let reparsed = ElfImage::parse(&bytes).expect("the serialized ELF re-parses");

    assert_eq!(reparsed.entry_point(), 0x40_1000);
    assert_eq!(reparsed.image_base(), 0x40_1000);
    assert!(reparsed.is_64bit());
    assert_eq!(reparsed.read_ioff(0, 1), Some(vec![0xf4]),);
    let segment = reparsed
        .segment_by_ioff(0)
        .expect("the code lives in a segment");
    assert!(segment.flags().is_executable());
    assert!(reparsed.validate().is_ok());
}

#[test]
fn elf32_round_trip() {
    let image = ElfBuilder::new()
        .class(ElfClass::Elf32)
        .endian(Endian::Little)
        .machine(Machine(Machine::I386))
        .elf_type(ElfType::Exec)
        .entry(0x0804_8000)
        .add_load(0x0804_8000, code_flags(), vec![0xcc, 0xc3])
        .build();

    let bytes = image.try_build().expect("the ELF32 serializes");
    let reparsed = ElfImage::parse(&bytes).expect("the ELF32 re-parses");

    assert!(!reparsed.is_64bit());
    assert_eq!(reparsed.entry_point(), 0x0804_8000);
    assert_eq!(reparsed.read_ioff(0, 2), Some(vec![0xcc, 0xc3]),);
    assert!(reparsed.validate().is_ok());
}

#[test]
fn note_round_trip() {
    let build_id = vec![0xde, 0xad, 0xbe, 0xef];
    let image = ElfBuilder::new()
        .entry(0x40_1000)
        .add_load(0x40_1000, code_flags(), vec![0xf4])
        .add_note("GNU", NT_GNU_BUILD_ID, build_id.clone())
        .build();

    let id = image
        .build_id()
        .expect("notes parse")
        .expect("a build-id note exists");
    assert_eq!(id, build_id);
}

#[test]
fn tls_round_trip() {
    let tls_data = vec![0x42; 16];
    let image = ElfBuilder::new()
        .entry(0x40_1000)
        .add_load(0x40_1000, code_flags(), vec![0xf4])
        .add_tls(0x40_3000, tls_data.clone(), 32, 8)
        .build();

    let tls = image.tls().expect("a PT_TLS segment exists");
    assert_eq!(tls.template_vaddr(), 0x40_3000);
    assert_eq!(tls.file_size(), 16);
    assert_eq!(tls.mem_size(), 32);
    assert_eq!(tls.align(), 8);
}

#[test]
fn dynamic_needed_round_trip() {
    let image = ElfBuilder::new()
        .entry(0x40_1000)
        .add_load(0x40_1000, code_flags(), vec![0xf4])
        .add_dynamic_needed("libc.so.6")
        .add_dynamic_needed("libm.so.6")
        .build();

    let needed = image.needed_libraries().expect("dynamic table parses");
    assert_eq!(needed, vec!["libc.so.6", "libm.so.6"]);
}

#[test]
fn mapped_image_round_trip() {
    let image = ElfBuilder::new()
        .machine(Machine(Machine::X86_64))
        .elf_type(ElfType::Exec)
        .entry(0x40_1000)
        .add_load(0x40_0000, SegmentFlags(SegmentFlags::READ), vec![0; 0x1000])
        .add_load(0x40_1000, code_flags(), vec![0xf4, 0xc3])
        .build();

    let mapped = image
        .to_mapped_image()
        .expect("the test ELF produces a mapped image");
    let reparsed = ElfImage::parse_mapped(&mapped).expect("the mapped image re-parses");

    assert_eq!(reparsed.entry_point(), 0x40_1000);
    assert_eq!(reparsed.image_base(), 0x40_0000);
    assert_eq!(reparsed.read_at_ioff(0x1000, 2), Some(&[0xf4, 0xc3][..]),);
}

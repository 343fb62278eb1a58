use elfex::{ElfClass, ElfIdent, Endian, OsAbi, ProgramHeader, SectionHeader, SliceReader};
use elfex::{ReadAt, SegmentFlags, SegmentType, SectionFlags, SectionType};

#[test]
fn integers_round_trip_in_both_byte_orders() {
    for endian in [Endian::Little, Endian::Big] {
        assert_eq!(endian.u16(endian.u16_bytes(0xbeef)), 0xbeef);
        assert_eq!(endian.u32(endian.u32_bytes(0xdead_beef)), 0xdead_beef);
        assert_eq!(endian.u64(endian.u64_bytes(0x0123_4567_89ab_cdef)), 0x0123_4567_89ab_cdef);
    }
    assert_eq!(Endian::Little.u32_bytes(0x0102_0304), [4, 3, 2, 1]);
    assert_eq!(Endian::Big.u32_bytes(0x0102_0304), [1, 2, 3, 4]);
}

#[test]
fn an_identification_round_trips() {
    let ident = ElfIdent {
        class: ElfClass::Elf32,
        data: Endian::Big,
        version: 1,
        os_abi: OsAbi(OsAbi::SYSV),
        abi_version: 0,
    };
    let bytes = ident.to_bytes();
    assert_eq!(&bytes[0..4], b"\x7fELF");
    assert_eq!(ElfIdent::parse(&bytes).expect("the identification parses"), ident);
}

#[test]
fn a_program_header_round_trips_through_a_reader() {
    let header = ProgramHeader {
        kind: SegmentType(SegmentType::LOAD),
        flags: SegmentFlags(SegmentFlags::READ),
        offset: 0x1000,
        vaddr: 0x40_1000,
        paddr: 0x40_1000,
        filesz: 0x20,
        memsz: 0x40,
        align: 0x1000,
    };
    for class in [ElfClass::Elf32, ElfClass::Elf64] {
        let mut out = vec![0xee; 3];
        header.write(&mut out, Endian::Big, class);
        let reader = SliceReader::new(&out);
        let back = ProgramHeader::parse(&reader, 3, Endian::Big, class).expect("the header parses");
        assert_eq!(back, header);
        assert_eq!(reader.size(), Some(out.len() as u64));
    }
}

#[test]
fn a_section_header_round_trips_through_a_reader() {
    let header = SectionHeader {
        name_index: 7,
        kind: SectionType(SectionType::PROGBITS),
        flags: SectionFlags(SectionFlags::ALLOC | SectionFlags::EXECINSTR),
        addr: 0x40_1000,
        offset: 0x1000,
        size: 0x10,
        link: 0,
        info: 0,
        addralign: 16,
        entsize: 0,
    };
    let mut out = Vec::new();
    header.write(&mut out, Endian::Little, ElfClass::Elf64);
    assert_eq!(out.len(), 64);
    let back = SectionHeader::parse(&SliceReader::new(&out), 0, Endian::Little, ElfClass::Elf64)
        .expect("the header parses");
    assert_eq!(back, header);
}

#[test]
fn reads_past_the_end_are_short_or_fail() {
    let data = [1u8, 2, 3, 4];
    let reader = SliceReader::new(&data);
    let mut buf = [0u8; 8];
    assert_eq!(reader.read_at(2, &mut buf).expect("a slice read succeeds"), 2);
    assert_eq!(&buf[0..2], &[3, 4]);
    assert!(reader.read_exact_at(2, &mut buf).is_err());
    assert_eq!(reader.read_u16_at(1, Endian::Little).expect("two bytes read"), 0x0302);
    assert!(reader.read_u32_at(2, Endian::Little).is_err());
    assert_eq!(reader.read_bytes_at(1, 3).expect("three bytes read"), vec![2, 3, 4]);
}

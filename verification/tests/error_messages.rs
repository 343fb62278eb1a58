use elfex::{ElfClass, ElfImage, Endian, Error, ErrorKind, Note, ReadAt, SliceReader, StringTable};

#[test]
fn error_messages_spell_out_their_fields() {
    assert_eq!(Error::invalid_magic().to_string(), "invalid ELF magic number");
    assert_eq!(Error::invalid_class(5).to_string(), "invalid ELF class 0x5");
    assert_eq!(
        Error::buffer_too_small(16, 3).to_string(),
        "buffer too small: expected 16 bytes, found 3"
    );
    assert_eq!(
        Error::offset_out_of_bounds(0x40, 0x10).to_string(),
        "offset 0x40 is out of bounds for size 0x10"
    );
    assert_eq!(Error::generic("plain").to_string(), "plain");
}

#[test]
fn error_context_follows_the_message_in_parentheses() {
    let error = Error::invalid_section("bad table")
        .in_structure("section header")
        .at_offset(0x20);
    assert_eq!(
        error.to_string(),
        "invalid section: bad table (in section header, at file offset 0x20)"
    );
    assert_eq!(error.context().and_then(|c| c.offset()), Some(0x20));
    assert_eq!(error.context().and_then(|c| c.structure()), Some("section header"));
}

#[test]
fn an_error_made_from_a_kind_has_no_context() {
    let error: Error = ErrorKind::InvalidUtf8.into();
    assert!(error.context().is_none());
    assert_eq!(error.to_string(), "invalid UTF-8 in ELF string");
}

#[test]
fn bytes_without_the_magic_number_are_rejected() {
    let error = ElfImage::parse(&[0u8; 64]).expect_err("zeros are no ELF file");
    assert!(matches!(error.kind(), ErrorKind::InvalidMagic));
}

#[test]
fn an_unknown_class_byte_is_rejected() {
    let mut data = vec![0u8; 64];
    data[0..4].copy_from_slice(b"\x7fELF");
    data[4] = 9;
    data[5] = 1;
    let error = ElfImage::parse(&data).expect_err("class 9 is unknown");
    assert!(matches!(error.kind(), ErrorKind::InvalidClass(9)));
}

#[test]
fn an_unknown_data_encoding_is_rejected() {
    let mut data = vec![0u8; 64];
    data[0..4].copy_from_slice(b"\x7fELF");
    data[4] = 2;
    data[5] = 7;
    let error = ElfImage::parse(&data).expect_err("encoding 7 is unknown");
    assert!(matches!(error.kind(), ErrorKind::InvalidDataEncoding(7)));
}

#[test]
fn a_truncated_header_is_rejected() {
    assert!(ElfImage::parse(b"\x7fELF").is_err());
    assert!(ElfImage::parse_mapped(b"\x7fELF").is_err());
}

#[test]
fn a_string_table_resolves_names_by_offset() {
    let table = StringTable::new(b"\0.text\0.data\0\xff\0");
    assert_eq!(table.get(0), Some(""));
    assert_eq!(table.get(1), Some(".text"));
    assert_eq!(table.get(7), Some(".data"));
    assert_eq!(table.get(13), None, "invalid UTF-8 yields no name");
    assert_eq!(table.get(99), None);
}

#[test]
fn a_note_with_an_invalid_name_is_an_error() {
    let mut data = Vec::new();
    data.extend_from_slice(&2u32.to_le_bytes());
    data.extend_from_slice(&0u32.to_le_bytes());
    data.extend_from_slice(&1u32.to_le_bytes());
    data.extend_from_slice(&[0xff, 0, 0, 0]);
    let error = Note::parse_all(&data, Endian::Little).expect_err("the name is not UTF-8");
    assert!(matches!(error.kind(), ErrorKind::InvalidUtf8));
    let _ = ElfClass::Elf64;
}

#[test]
fn an_offset_at_the_end_of_a_string_table_is_out_of_range() {
    let mut data = vec![0u8];
    data.extend_from_slice(b"libc.so.6");
    data.push(0);
    let table = StringTable::new(&data);
    assert_eq!(table.get(0), Some(""));
    assert_eq!(table.get(1), Some("libc.so.6"));
    assert_eq!(table.get(5), Some(".so.6"));
    assert_eq!(table.get(11), None);
}

#[test]
fn a_short_source_reports_the_bytes_it_holds() {
    let data = [1u8, 2, 3, 4, 5];
    let reader = SliceReader::new(&data);
    let mut buf = [0u8; 4];
    let error = reader.read_exact_at(3, &mut buf).expect_err("only two bytes remain");
    assert!(matches!(error.kind(), ErrorKind::BufferTooSmall { expected: 4, actual: 2 }));
    let error = reader.read_exact_at(9, &mut buf).expect_err("nothing remains");
    assert!(matches!(error.kind(), ErrorKind::BufferTooSmall { expected: 4, actual: 0 }));
    assert!(reader.read_exact_at(1, &mut buf).is_ok());
    assert_eq!(buf, [2, 3, 4, 5]);
}

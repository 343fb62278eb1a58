use elfex::ElfImage;

/// Builds a minimal ELF64 file with one `PT_LOAD` segment whose size
/// fields hold the value `0x7863_6148_0003_1337`.
fn elf_with_huge_segment_size() -> Vec<u8> {
    let mut data = vec![0u8; 64 + 56];
    data[0..4].copy_from_slice(b"\x7fELF");
    data[4] = 2; // ELFCLASS64
    data[5] = 1; // ELFDATA2LSB
    data[6] = 1; // EV_CURRENT
    data[16..18].copy_from_slice(&2u16.to_le_bytes()); // e_type = ET_EXEC
    data[18..20].copy_from_slice(&62u16.to_le_bytes()); // e_machine = EM_X86_64
    data[32..40].copy_from_slice(&64u64.to_le_bytes()); // e_phoff
    data[54..56].copy_from_slice(&56u16.to_le_bytes()); // e_phentsize
    data[56..58].copy_from_slice(&1u16.to_le_bytes()); // e_phnum
    let phdr = &mut data[64..];
    phdr[0..4].copy_from_slice(&1u32.to_le_bytes()); // PT_LOAD
    phdr[32..40].copy_from_slice(&0x7863_6148_0003_1337u64.to_le_bytes()); // p_filesz
    phdr[40..48].copy_from_slice(&0x7863_6148_0003_1337u64.to_le_bytes()); // p_memsz
    data
}

#[test]
fn huge_segment_size_is_rejected_not_allocated() {
    let data = elf_with_huge_segment_size();
    assert!(ElfImage::parse(&data).is_err());
    assert!(ElfImage::parse_mapped(&data).is_err());
}

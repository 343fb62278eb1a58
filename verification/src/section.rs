//! ELF section headers and sections.
//!
//! Sections form the link-time view of an ELF object. This module parses
//! section headers; the image parser resolves section names through the
//! section-name string table.

use vstd::prelude::*;

use crate::error::Result;
use crate::ident::{ElfClass, Endian};
use crate::program::sat_add;
use crate::reader::{field32, field64, in_range, window, ReadAt};

verus! {

/// The section type recorded in a section header's `sh_type` field.
#[derive(Debug, Clone, Copy, PartialEq, Eq, Hash, Structural)]
pub struct SectionType(pub u32);

impl SectionType {
    /// Inactive section header.
    pub const NULL: u32 = 0;
    /// Program-defined contents.
    pub const PROGBITS: u32 = 1;
    /// Symbol table.
    pub const SYMTAB: u32 = 2;
    /// String table.
    pub const STRTAB: u32 = 3;
    /// Relocation entries with explicit addends.
    pub const RELA: u32 = 4;
    /// Symbol hash table.
    pub const HASH: u32 = 5;
    /// Dynamic linking information.
    pub const DYNAMIC: u32 = 6;
    /// Note information.
    pub const NOTE: u32 = 7;
    /// Occupies no file space.
    pub const NOBITS: u32 = 8;
    /// Relocation entries without explicit addends.
    pub const REL: u32 = 9;
    /// Reserved, with unspecified semantics.
    pub const SHLIB: u32 = 10;
    /// Dynamic linker symbol table.
    pub const DYNSYM: u32 = 11;
    /// Array of constructors.
    pub const INIT_ARRAY: u32 = 14;
    /// Array of destructors.
    pub const FINI_ARRAY: u32 = 15;
    /// Array of pre-constructors.
    pub const PREINIT_ARRAY: u32 = 16;
    /// Section group.
    pub const GROUP: u32 = 17;
    /// Extended section indices for a symbol table.
    pub const SYMTAB_SHNDX: u32 = 18;
    /// Packed relative relocation entries.
    pub const RELR: u32 = 19;
    /// GNU-style symbol hash table.
    pub const GNU_HASH: u32 = 0x6fff_fff6;
    /// GNU version definitions.
    pub const GNU_VERDEF: u32 = 0x6fff_fffd;
    /// GNU version requirements.
    pub const GNU_VERNEED: u32 = 0x6fff_fffe;
    /// GNU version symbol table.
    pub const GNU_VERSYM: u32 = 0x6fff_ffff;

    /// Returns the raw `sh_type` value.
    pub fn value(self) -> (res: u32)
        ensures
            res == self.0,
    {
        self.0
    }
}

/// Section attribute flags from a section header's `sh_flags` field.
#[derive(Debug, Clone, Copy, PartialEq, Eq, Hash, Structural)]
pub struct SectionFlags(pub u64);

impl SectionFlags {
    /// Writable during execution (`SHF_WRITE`).
    pub const WRITE: u64 = 1;
    /// Occupies memory during execution (`SHF_ALLOC`).
    pub const ALLOC: u64 = 2;
    /// Contains executable instructions (`SHF_EXECINSTR`).
    pub const EXECINSTR: u64 = 4;

    /// Whether the flags include `SHF_ALLOC`.
    pub open spec fn alloc_spec(self) -> bool {
        self.0 & 2 != 0
    }

    /// Returns the raw `sh_flags` value.
    pub fn value(self) -> (res: u64)
        ensures
            res == self.0,
    {
        self.0
    }

    /// Tests whether the section occupies memory during execution.
    pub fn is_alloc(self) -> (res: bool)
        ensures
            res == self.alloc_spec(),
    {
        self.0 & Self::ALLOC != 0
    }

    /// Tests whether the section is writable during execution.
    pub fn is_writable(self) -> (res: bool)
        ensures
            res == (self.0 & 1 != 0),
    {
        self.0 & Self::WRITE != 0
    }

    /// Tests whether the section contains executable instructions.
    pub fn is_executable(self) -> (res: bool)
        ensures
            res == (self.0 & 4 != 0),
    {
        self.0 & Self::EXECINSTR != 0
    }
}

/// A parsed ELF section header with address fields widened to 64 bits.
#[derive(Debug, Clone, Copy, PartialEq, Eq, Structural)]
pub struct SectionHeader {
    /// The section name as a string-table offset.
    pub name_index: u32,
    /// The section type.
    pub kind: SectionType,
    /// The section attribute flags.
    pub flags: SectionFlags,
    /// The virtual address of the section during execution.
    pub addr: u64,
    /// The file offset of the section bytes.
    pub offset: u64,
    /// The section size in bytes.
    pub size: u64,
    /// A section-type-specific link to another section.
    pub link: u32,
    /// Section-type-specific extra information.
    pub info: u32,
    /// The required alignment of the section.
    pub addralign: u64,
    /// The size of one fixed-size entry, or zero.
    pub entsize: u64,
}

/// The serialized size of a section header for `class`.
pub open spec fn shdr_size(class: ElfClass) -> int {
    match class {
        ElfClass::Elf32 => 40,
        ElfClass::Elf64 => 64,
    }
}

impl SectionHeader {
    /// The section header that `c` holds at `off`.
    pub open spec fn from_bytes(c: Seq<u8>, off: int, e: Endian, class: ElfClass) -> SectionHeader {
        match class {
            ElfClass::Elf64 => SectionHeader {
                name_index: field32(c, e, off),
                kind: SectionType(field32(c, e, off + 4)),
                flags: SectionFlags(field64(c, e, off + 8)),
                addr: field64(c, e, off + 16),
                offset: field64(c, e, off + 24),
                size: field64(c, e, off + 32),
                link: field32(c, e, off + 40),
                info: field32(c, e, off + 44),
                addralign: field64(c, e, off + 48),
                entsize: field64(c, e, off + 56),
            },
            ElfClass::Elf32 => SectionHeader {
                name_index: field32(c, e, off),
                kind: SectionType(field32(c, e, off + 4)),
                flags: SectionFlags(field32(c, e, off + 8) as u64),
                addr: field32(c, e, off + 12) as u64,
                offset: field32(c, e, off + 16) as u64,
                size: field32(c, e, off + 20) as u64,
                link: field32(c, e, off + 24),
                info: field32(c, e, off + 28),
                addralign: field32(c, e, off + 32) as u64,
                entsize: field32(c, e, off + 36) as u64,
            },
        }
    }

    /// The serialized bytes of this section header.
    pub open spec fn bytes_spec(self, e: Endian, class: ElfClass) -> Seq<u8> {
        match class {
            ElfClass::Elf64 => e.encode32(self.name_index) + e.encode32(self.kind.0) + e.encode64(
                self.flags.0,
            ) + e.encode64(self.addr) + e.encode64(self.offset) + e.encode64(self.size)
                + e.encode32(self.link) + e.encode32(self.info) + e.encode64(self.addralign)
                + e.encode64(self.entsize),
            ElfClass::Elf32 => e.encode32(self.name_index) + e.encode32(self.kind.0) + e.encode32(
                self.flags.0 as u32,
            ) + e.encode32(self.addr as u32) + e.encode32(self.offset as u32) + e.encode32(
                self.size as u32,
            ) + e.encode32(self.link) + e.encode32(self.info) + e.encode32(self.addralign as u32)
                + e.encode32(self.entsize as u32),
        }
    }

    /// Whether every field fits the on-disk width of `class`.
    pub open spec fn fits(self, class: ElfClass) -> bool {
        class == ElfClass::Elf64 || (self.flags.0 <= u32::MAX && self.addr <= u32::MAX
            && self.offset <= u32::MAX && self.size <= u32::MAX && self.addralign <= u32::MAX
            && self.entsize <= u32::MAX)
    }

    /// Whether the section occupies no file bytes.
    pub open spec fn nobits_spec(self) -> bool {
        self.kind.0 == SectionType::NOBITS
    }

    /// Returns the serialized size of a section header for `class`.
    pub fn size(class: ElfClass) -> (res: u64)
        ensures
            res == shdr_size(class),
    {
        match class {
            ElfClass::Elf32 => 40,
            ElfClass::Elf64 => 64,
        }
    }

    /// Parses one section header at `offset`.
    pub fn parse<R: ReadAt>(reader: &R, offset: u64, endian: Endian, class: ElfClass) -> (res:
        Result<Self>)
        requires
            offset + shdr_size(class) <= u64::MAX,
        ensures
            reader.reads_fully() ==> (res is Ok <==> in_range(
                reader.contents(),
                offset as int,
                shdr_size(class),
            )),
            reader.reads_fully() ==> (res matches Ok(h) ==> h == Self::from_bytes(
                reader.contents(),
                offset as int,
                endian,
                class,
            )),
    {
        match class {
            ElfClass::Elf64 => {
                let name_index = reader.read_u32_at(offset, endian)?;
                let kind = reader.read_u32_at(offset + 4, endian)?;
                let flags = reader.read_u64_at(offset + 8, endian)?;
                let addr = reader.read_u64_at(offset + 16, endian)?;
                let off = reader.read_u64_at(offset + 24, endian)?;
                let size = reader.read_u64_at(offset + 32, endian)?;
                let link = reader.read_u32_at(offset + 40, endian)?;
                let info = reader.read_u32_at(offset + 44, endian)?;
                let addralign = reader.read_u64_at(offset + 48, endian)?;
                let entsize = match reader.read_u64_at(offset + 56, endian) {
                    Ok(v) => v,
                    Err(e) => {
                        return Err(e);
                    },
                };
                Ok(SectionHeader {
                    name_index,
                    kind: SectionType(kind),
                    flags: SectionFlags(flags),
                    addr,
                    offset: off,
                    size,
                    link,
                    info,
                    addralign,
                    entsize,
                })
            },
            ElfClass::Elf32 => {
                let name_index = reader.read_u32_at(offset, endian)?;
                let kind = reader.read_u32_at(offset + 4, endian)?;
                let flags = reader.read_u32_at(offset + 8, endian)?;
                let addr = reader.read_u32_at(offset + 12, endian)?;
                let off = reader.read_u32_at(offset + 16, endian)?;
                let size = reader.read_u32_at(offset + 20, endian)?;
                let link = reader.read_u32_at(offset + 24, endian)?;
                let info = reader.read_u32_at(offset + 28, endian)?;
                let addralign = reader.read_u32_at(offset + 32, endian)?;
                let entsize = match reader.read_u32_at(offset + 36, endian) {
                    Ok(v) => v,
                    Err(e) => {
                        return Err(e);
                    },
                };
                Ok(SectionHeader {
                    name_index,
                    kind: SectionType(kind),
                    flags: SectionFlags(flags as u64),
                    addr: addr as u64,
                    offset: off as u64,
                    size: size as u64,
                    link,
                    info,
                    addralign: addralign as u64,
                    entsize: entsize as u64,
                })
            },
        }
    }

    /// Serializes the section header for `class` and appends it to `out`.
    ///
    /// For an ELF32 object each wide field keeps its low 32 bits.
    pub fn write(&self, out: &mut Vec<u8>, endian: Endian, class: ElfClass)
        ensures
            final(out)@ == old(out)@ + self.bytes_spec(endian, class),
    {
        match class {
            ElfClass::Elf64 => {
                out.extend_from_slice(endian.u32_bytes(self.name_index).as_slice());
                out.extend_from_slice(endian.u32_bytes(self.kind.0).as_slice());
                out.extend_from_slice(endian.u64_bytes(self.flags.0).as_slice());
                out.extend_from_slice(endian.u64_bytes(self.addr).as_slice());
                out.extend_from_slice(endian.u64_bytes(self.offset).as_slice());
                out.extend_from_slice(endian.u64_bytes(self.size).as_slice());
                out.extend_from_slice(endian.u32_bytes(self.link).as_slice());
                out.extend_from_slice(endian.u32_bytes(self.info).as_slice());
                out.extend_from_slice(endian.u64_bytes(self.addralign).as_slice());
                out.extend_from_slice(endian.u64_bytes(self.entsize).as_slice());
            },
            ElfClass::Elf32 => {
                out.extend_from_slice(endian.u32_bytes(self.name_index).as_slice());
                out.extend_from_slice(endian.u32_bytes(self.kind.0).as_slice());
                out.extend_from_slice(endian.u32_bytes(crate::low32(self.flags.0)).as_slice());
                out.extend_from_slice(endian.u32_bytes(crate::low32(self.addr)).as_slice());
                out.extend_from_slice(endian.u32_bytes(crate::low32(self.offset)).as_slice());
                out.extend_from_slice(endian.u32_bytes(crate::low32(self.size)).as_slice());
                out.extend_from_slice(endian.u32_bytes(self.link).as_slice());
                out.extend_from_slice(endian.u32_bytes(self.info).as_slice());
                out.extend_from_slice(endian.u32_bytes(crate::low32(self.addralign)).as_slice());
                out.extend_from_slice(endian.u32_bytes(crate::low32(self.entsize)).as_slice());
            },
        }
        assert(out@ =~= old(out)@ + self.bytes_spec(endian, class));
    }

    /// Tests whether the section occupies no file bytes.
    pub fn is_nobits(&self) -> (res: bool)
        ensures
            res == self.nobits_spec(),
    {
        self.kind.0 == SectionType::NOBITS
    }
}

/// Parsing the serialized bytes of a section header, wherever they stand,
/// gives the header back when its fields fit the class.
#[verifier::spinoff_prover]
#[verifier::rlimit(60)]
pub proof fn lemma_section_header_round_trip(
    h: SectionHeader,
    e: Endian,
    class: ElfClass,
    p: Seq<u8>,
    q: Seq<u8>,
)
    requires
        h.fits(class),
    ensures
        h.bytes_spec(e, class).len() == shdr_size(class),
        SectionHeader::from_bytes(p + h.bytes_spec(e, class) + q, p.len() as int, e, class) == h,
{
    crate::ident::lemma_decode32_encode32(e, h.name_index);
    crate::ident::lemma_decode32_encode32(e, h.kind.0);
    crate::ident::lemma_decode32_encode32(e, h.link);
    crate::ident::lemma_decode32_encode32(e, h.info);
    let b = h.bytes_spec(e, class);
    let c = p + b + q;
    let n = p.len() as int;
    match class {
        ElfClass::Elf64 => {
            crate::ident::lemma_decode64_encode64(e, h.flags.0);
            crate::ident::lemma_decode64_encode64(e, h.addr);
            crate::ident::lemma_decode64_encode64(e, h.offset);
            crate::ident::lemma_decode64_encode64(e, h.size);
            crate::ident::lemma_decode64_encode64(e, h.addralign);
            crate::ident::lemma_decode64_encode64(e, h.entsize);
            assert(window(c, n, 4) =~= e.encode32(h.name_index));
            assert(window(c, n + 4, 4) =~= e.encode32(h.kind.0));
            assert(window(c, n + 8, 8) =~= e.encode64(h.flags.0));
            assert(window(c, n + 16, 8) =~= e.encode64(h.addr));
            assert(window(c, n + 24, 8) =~= e.encode64(h.offset));
            assert(window(c, n + 32, 8) =~= e.encode64(h.size));
            assert(window(c, n + 40, 4) =~= e.encode32(h.link));
            assert(window(c, n + 44, 4) =~= e.encode32(h.info));
            assert(window(c, n + 48, 8) =~= e.encode64(h.addralign));
            assert(window(c, n + 56, 8) =~= e.encode64(h.entsize));
        },
        ElfClass::Elf32 => {
            crate::ident::lemma_decode32_encode32(e, h.flags.0 as u32);
            crate::ident::lemma_decode32_encode32(e, h.addr as u32);
            crate::ident::lemma_decode32_encode32(e, h.offset as u32);
            crate::ident::lemma_decode32_encode32(e, h.size as u32);
            crate::ident::lemma_decode32_encode32(e, h.addralign as u32);
            crate::ident::lemma_decode32_encode32(e, h.entsize as u32);
            assert(window(c, n, 4) =~= e.encode32(h.name_index));
            assert(window(c, n + 4, 4) =~= e.encode32(h.kind.0));
            assert(window(c, n + 8, 4) =~= e.encode32(h.flags.0 as u32));
            assert(window(c, n + 12, 4) =~= e.encode32(h.addr as u32));
            assert(window(c, n + 16, 4) =~= e.encode32(h.offset as u32));
            assert(window(c, n + 20, 4) =~= e.encode32(h.size as u32));
            assert(window(c, n + 24, 4) =~= e.encode32(h.link));
            assert(window(c, n + 28, 4) =~= e.encode32(h.info));
            assert(window(c, n + 32, 4) =~= e.encode32(h.addralign as u32));
            assert(window(c, n + 36, 4) =~= e.encode32(h.entsize as u32));
        },
    }
}

/// A section header paired with its resolved name and bytes.
#[derive(Debug, Clone, PartialEq, Eq)]
pub struct Section {
    /// The section header.
    pub header: SectionHeader,
    /// The resolved section name.
    pub name: String,
    /// The section bytes, empty for a `NOBITS` section.
    pub data: Vec<u8>,
}

impl View for Section {
    type V = (SectionHeader, Seq<char>, Seq<u8>);

    open spec fn view(&self) -> (SectionHeader, Seq<char>, Seq<u8>) {
        (self.header, self.name@, self.data@)
    }
}

/// Whether `vaddr` falls within the memory range of an allocated section.
pub open spec fn section_covers(h: SectionHeader, vaddr: u64) -> bool {
    h.flags.alloc_spec() && vaddr >= h.addr && vaddr < sat_add(h.addr, h.size)
}

impl Section {
    /// Creates a section from a header, name, and bytes.
    pub fn new(header: SectionHeader, name: String, data: Vec<u8>) -> (res: Self)
        ensures
            res.header == header,
            res.name@ == name@,
            res.data@ == data@,
    {
        Section { header, name, data }
    }

    /// Returns the section attribute flags.
    pub fn flags(&self) -> (res: SectionFlags)
        ensures
            res == self.header.flags,
    {
        self.header.flags
    }

    /// Returns the section type.
    pub fn section_type(&self) -> (res: SectionType)
        ensures
            res == self.header.kind,
    {
        self.header.kind
    }

    /// Tests whether `vaddr` falls within the section's memory range.
    pub fn contains_vaddr(&self, vaddr: u64) -> (res: bool)
        ensures
            res == section_covers(self.header, vaddr),
    {
        self.header.flags.is_alloc() && vaddr >= self.header.addr && vaddr
            < self.header.addr.saturating_add(self.header.size)
    }
}

/// An ELF64 section header (`Elf64_Shdr`) holds `sh_name` and `sh_type` as
/// four-byte fields, `sh_flags`, `sh_addr`, `sh_offset` and `sh_size` as
/// eight-byte fields, `sh_link` and `sh_info` as four-byte fields, then
/// `sh_addralign` and `sh_entsize` as eight-byte fields, in that order: the
/// header read from such bytes has exactly these fields.
pub proof fn lemma_section_header_layout64(
    c: Seq<u8>,
    off: int,
    e: Endian,
    name_index: u32,
    kind_raw: u32,
    flags_raw: u64,
    addr: u64,
    offset: u64,
    size: u64,
    link: u32,
    info: u32,
    addralign: u64,
    entsize: u64,
)
    requires
        0 <= off,
        off + 64 <= c.len(),
        c.subrange(off, off + 64) == e.encode32(name_index)
            + e.encode32(kind_raw)
            + e.encode64(flags_raw)
            + e.encode64(addr)
            + e.encode64(offset)
            + e.encode64(size)
            + e.encode32(link)
            + e.encode32(info)
            + e.encode64(addralign)
            + e.encode64(entsize),
    ensures
        SectionHeader::from_bytes(c, off, e, ElfClass::Elf64) == (SectionHeader {
            name_index,
            kind: SectionType(kind_raw),
            flags: SectionFlags(flags_raw),
            addr,
            offset,
            size,
            link,
            info,
            addralign,
            entsize,
        }),
{
    let entry = c.subrange(off, off + 64);
    crate::ident::lemma_decode32_encode32(e, name_index);
    crate::ident::lemma_decode32_encode32(e, kind_raw);
    crate::ident::lemma_decode64_encode64(e, flags_raw);
    crate::ident::lemma_decode64_encode64(e, addr);
    crate::ident::lemma_decode64_encode64(e, offset);
    crate::ident::lemma_decode64_encode64(e, size);
    crate::ident::lemma_decode32_encode32(e, link);
    crate::ident::lemma_decode32_encode32(e, info);
    crate::ident::lemma_decode64_encode64(e, addralign);
    crate::ident::lemma_decode64_encode64(e, entsize);
    assert(window(c, off + 0, 4) =~= e.encode32(name_index)) by {
        assert forall|k: int| 0 <= k < 4 implies #[trigger] window(c, off + 0, 4)[k] == entry[0 + k] by {}
    }
    assert(window(c, off + 4, 4) =~= e.encode32(kind_raw)) by {
        assert forall|k: int| 0 <= k < 4 implies #[trigger] window(c, off + 4, 4)[k] == entry[4 + k] by {}
    }
    assert(window(c, off + 8, 8) =~= e.encode64(flags_raw)) by {
        assert forall|k: int| 0 <= k < 8 implies #[trigger] window(c, off + 8, 8)[k] == entry[8 + k] by {}
    }
    assert(window(c, off + 16, 8) =~= e.encode64(addr)) by {
        assert forall|k: int| 0 <= k < 8 implies #[trigger] window(c, off + 16, 8)[k] == entry[16 + k] by {}
    }
    assert(window(c, off + 24, 8) =~= e.encode64(offset)) by {
        assert forall|k: int| 0 <= k < 8 implies #[trigger] window(c, off + 24, 8)[k] == entry[24 + k] by {}
    }
    assert(window(c, off + 32, 8) =~= e.encode64(size)) by {
        assert forall|k: int| 0 <= k < 8 implies #[trigger] window(c, off + 32, 8)[k] == entry[32 + k] by {}
    }
    assert(window(c, off + 40, 4) =~= e.encode32(link)) by {
        assert forall|k: int| 0 <= k < 4 implies #[trigger] window(c, off + 40, 4)[k] == entry[40 + k] by {}
    }
    assert(window(c, off + 44, 4) =~= e.encode32(info)) by {
        assert forall|k: int| 0 <= k < 4 implies #[trigger] window(c, off + 44, 4)[k] == entry[44 + k] by {}
    }
    assert(window(c, off + 48, 8) =~= e.encode64(addralign)) by {
        assert forall|k: int| 0 <= k < 8 implies #[trigger] window(c, off + 48, 8)[k] == entry[48 + k] by {}
    }
    assert(window(c, off + 56, 8) =~= e.encode64(entsize)) by {
        assert forall|k: int| 0 <= k < 8 implies #[trigger] window(c, off + 56, 8)[k] == entry[56 + k] by {}
    }
}

/// An ELF32 section header (`Elf32_Shdr`) holds `sh_name`, `sh_type`,
/// `sh_flags`, `sh_addr`, `sh_offset`, `sh_size`, `sh_link`, `sh_info`,
/// `sh_addralign` and `sh_entsize` as four-byte fields in that order: the
/// header read from such bytes has exactly these fields.
pub proof fn lemma_section_header_layout32(
    c: Seq<u8>,
    off: int,
    e: Endian,
    name_index: u32,
    kind_raw: u32,
    flags_raw: u32,
    addr: u32,
    offset: u32,
    size: u32,
    link: u32,
    info: u32,
    addralign: u32,
    entsize: u32,
)
    requires
        0 <= off,
        off + 40 <= c.len(),
        c.subrange(off, off + 40) == e.encode32(name_index)
            + e.encode32(kind_raw)
            + e.encode32(flags_raw)
            + e.encode32(addr)
            + e.encode32(offset)
            + e.encode32(size)
            + e.encode32(link)
            + e.encode32(info)
            + e.encode32(addralign)
            + e.encode32(entsize),
    ensures
        SectionHeader::from_bytes(c, off, e, ElfClass::Elf32) == (SectionHeader {
            name_index,
            kind: SectionType(kind_raw),
            flags: SectionFlags(flags_raw as u64),
            addr: addr as u64,
            offset: offset as u64,
            size: size as u64,
            link,
            info,
            addralign: addralign as u64,
            entsize: entsize as u64,
        }),
{
    let entry = c.subrange(off, off + 40);
    crate::ident::lemma_decode32_encode32(e, name_index);
    crate::ident::lemma_decode32_encode32(e, kind_raw);
    crate::ident::lemma_decode32_encode32(e, flags_raw);
    crate::ident::lemma_decode32_encode32(e, addr);
    crate::ident::lemma_decode32_encode32(e, offset);
    crate::ident::lemma_decode32_encode32(e, size);
    crate::ident::lemma_decode32_encode32(e, link);
    crate::ident::lemma_decode32_encode32(e, info);
    crate::ident::lemma_decode32_encode32(e, addralign);
    crate::ident::lemma_decode32_encode32(e, entsize);
    assert(window(c, off + 0, 4) =~= e.encode32(name_index)) by {
        assert forall|k: int| 0 <= k < 4 implies #[trigger] window(c, off + 0, 4)[k] == entry[0 + k] by {}
    }
    assert(window(c, off + 4, 4) =~= e.encode32(kind_raw)) by {
        assert forall|k: int| 0 <= k < 4 implies #[trigger] window(c, off + 4, 4)[k] == entry[4 + k] by {}
    }
    assert(window(c, off + 8, 4) =~= e.encode32(flags_raw)) by {
        assert forall|k: int| 0 <= k < 4 implies #[trigger] window(c, off + 8, 4)[k] == entry[8 + k] by {}
    }
    assert(window(c, off + 12, 4) =~= e.encode32(addr)) by {
        assert forall|k: int| 0 <= k < 4 implies #[trigger] window(c, off + 12, 4)[k] == entry[12 + k] by {}
    }
    assert(window(c, off + 16, 4) =~= e.encode32(offset)) by {
        assert forall|k: int| 0 <= k < 4 implies #[trigger] window(c, off + 16, 4)[k] == entry[16 + k] by {}
    }
    assert(window(c, off + 20, 4) =~= e.encode32(size)) by {
        assert forall|k: int| 0 <= k < 4 implies #[trigger] window(c, off + 20, 4)[k] == entry[20 + k] by {}
    }
    assert(window(c, off + 24, 4) =~= e.encode32(link)) by {
        assert forall|k: int| 0 <= k < 4 implies #[trigger] window(c, off + 24, 4)[k] == entry[24 + k] by {}
    }
    assert(window(c, off + 28, 4) =~= e.encode32(info)) by {
        assert forall|k: int| 0 <= k < 4 implies #[trigger] window(c, off + 28, 4)[k] == entry[28 + k] by {}
    }
    assert(window(c, off + 32, 4) =~= e.encode32(addralign)) by {
        assert forall|k: int| 0 <= k < 4 implies #[trigger] window(c, off + 32, 4)[k] == entry[32 + k] by {}
    }
    assert(window(c, off + 36, 4) =~= e.encode32(entsize)) by {
        assert forall|k: int| 0 <= k < 4 implies #[trigger] window(c, off + 36, 4)[k] == entry[36 + k] by {}
    }
}

} // verus!

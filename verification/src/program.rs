//! ELF program headers and loadable segments.
//!
//! A program header describes one segment of the runtime image. [`Segment`]
//! pairs a header with the bytes that back it.

use vstd::prelude::*;

use crate::error::Result;
use crate::ident::{ElfClass, Endian};
use crate::reader::{field32, field64, in_range, window, ReadAt};

verus! {

/// Saturating addition of two 64-bit values.
pub open spec fn sat_add(a: u64, b: u64) -> u64 {
    if a + b <= u64::MAX {
        (a + b) as u64
    } else {
        u64::MAX
    }
}

/// The segment type recorded in a program header's `p_type` field.
#[derive(Debug, Clone, Copy, PartialEq, Eq, Hash, Structural)]
pub struct SegmentType(pub u32);

impl SegmentType {
    /// Unused program header entry.
    pub const NULL: u32 = 0;
    /// Loadable segment.
    pub const LOAD: u32 = 1;
    /// Dynamic linking information.
    pub const DYNAMIC: u32 = 2;
    /// Program interpreter path.
    pub const INTERP: u32 = 3;
    /// Auxiliary note information.
    pub const NOTE: u32 = 4;
    /// Reserved segment type.
    pub const SHLIB: u32 = 5;
    /// The program header table itself.
    pub const PHDR: u32 = 6;
    /// Thread-local storage template.
    pub const TLS: u32 = 7;
    /// GNU exception-handling frame header.
    pub const GNU_EH_FRAME: u32 = 0x6474_e550;
    /// GNU stack permission marker.
    pub const GNU_STACK: u32 = 0x6474_e551;
    /// GNU read-only-after-relocation region.
    pub const GNU_RELRO: u32 = 0x6474_e552;

    /// Returns the raw `p_type` value.
    pub fn value(self) -> (res: u32)
        ensures
            res == self.0,
    {
        self.0
    }
}

/// Segment permission flags from a program header's `p_flags` field.
#[derive(Debug, Clone, Copy, PartialEq, Eq, Hash, Structural)]
pub struct SegmentFlags(pub u32);

impl SegmentFlags {
    /// Execute permission (`PF_X`).
    pub const EXECUTE: u32 = 1;
    /// Write permission (`PF_W`).
    pub const WRITE: u32 = 2;
    /// Read permission (`PF_R`).
    pub const READ: u32 = 4;

    /// Returns the raw `p_flags` value.
    pub fn value(self) -> (res: u32)
        ensures
            res == self.0,
    {
        self.0
    }

    /// Tests whether the segment permits instruction execution.
    pub fn is_executable(self) -> (res: bool)
        ensures
            res == (self.0 & 1 != 0),
    {
        self.0 & Self::EXECUTE != 0
    }

    /// Tests whether the segment permits writes.
    pub fn is_writable(self) -> (res: bool)
        ensures
            res == (self.0 & 2 != 0),
    {
        self.0 & Self::WRITE != 0
    }

    /// Tests whether the segment permits reads.
    pub fn is_readable(self) -> (res: bool)
        ensures
            res == (self.0 & 4 != 0),
    {
        self.0 & Self::READ != 0
    }
}

/// A parsed ELF program header with address fields widened to 64 bits.
#[derive(Debug, Clone, Copy, PartialEq, Eq, Hash, Structural)]
pub struct ProgramHeader {
    /// The segment type.
    pub kind: SegmentType,
    /// The segment permission flags.
    pub flags: SegmentFlags,
    /// The file offset of the segment bytes.
    pub offset: u64,
    /// The virtual address of the segment.
    pub vaddr: u64,
    /// The physical address of the segment.
    pub paddr: u64,
    /// The number of file bytes in the segment.
    pub filesz: u64,
    /// The number of memory bytes in the segment.
    pub memsz: u64,
    /// The required alignment of the segment.
    pub align: u64,
}

/// The serialized size of a program header for `class`.
pub open spec fn phdr_size(class: ElfClass) -> int {
    match class {
        ElfClass::Elf32 => 32,
        ElfClass::Elf64 => 56,
    }
}

impl ProgramHeader {
    /// The program header that `c` holds at `off`.
    pub open spec fn from_bytes(c: Seq<u8>, off: int, e: Endian, class: ElfClass) -> ProgramHeader {
        match class {
            ElfClass::Elf64 => ProgramHeader {
                kind: SegmentType(field32(c, e, off)),
                flags: SegmentFlags(field32(c, e, off + 4)),
                offset: field64(c, e, off + 8),
                vaddr: field64(c, e, off + 16),
                paddr: field64(c, e, off + 24),
                filesz: field64(c, e, off + 32),
                memsz: field64(c, e, off + 40),
                align: field64(c, e, off + 48),
            },
            ElfClass::Elf32 => ProgramHeader {
                kind: SegmentType(field32(c, e, off)),
                offset: field32(c, e, off + 4) as u64,
                vaddr: field32(c, e, off + 8) as u64,
                paddr: field32(c, e, off + 12) as u64,
                filesz: field32(c, e, off + 16) as u64,
                memsz: field32(c, e, off + 20) as u64,
                flags: SegmentFlags(field32(c, e, off + 24)),
                align: field32(c, e, off + 28) as u64,
            },
        }
    }

    /// The serialized bytes of this program header.
    pub open spec fn bytes_spec(self, e: Endian, class: ElfClass) -> Seq<u8> {
        match class {
            ElfClass::Elf64 => e.encode32(self.kind.0) + e.encode32(self.flags.0) + e.encode64(
                self.offset,
            ) + e.encode64(self.vaddr) + e.encode64(self.paddr) + e.encode64(self.filesz)
                + e.encode64(self.memsz) + e.encode64(self.align),
            ElfClass::Elf32 => e.encode32(self.kind.0) + e.encode32(self.offset as u32) + e.encode32(
                self.vaddr as u32,
            ) + e.encode32(self.paddr as u32) + e.encode32(self.filesz as u32) + e.encode32(
                self.memsz as u32,
            ) + e.encode32(self.flags.0) + e.encode32(self.align as u32),
        }
    }

    /// Whether every field fits the on-disk width of `class`.
    pub open spec fn fits(self, class: ElfClass) -> bool {
        class == ElfClass::Elf64 || (self.offset <= u32::MAX && self.vaddr <= u32::MAX
            && self.paddr <= u32::MAX && self.filesz <= u32::MAX && self.memsz <= u32::MAX
            && self.align <= u32::MAX)
    }

    /// Returns the serialized size of a program header for `class`.
    pub fn size(class: ElfClass) -> (res: u64)
        ensures
            res == phdr_size(class),
    {
        match class {
            ElfClass::Elf32 => 32,
            ElfClass::Elf64 => 56,
        }
    }

    /// Parses one program header at `offset`.
    pub fn parse<R: ReadAt>(reader: &R, offset: u64, endian: Endian, class: ElfClass) -> (res:
        Result<Self>)
        requires
            offset + phdr_size(class) <= u64::MAX,
        ensures
            reader.reads_fully() ==> (res is Ok <==> in_range(
                reader.contents(),
                offset as int,
                phdr_size(class),
            )),
            reader.reads_fully() ==> (res matches Ok(h) ==> h == Self::from_bytes(
                reader.contents(),
                offset as int,
                endian,
                class,
            )),
    {
        let c = Ghost(reader.contents());
        match class {
            ElfClass::Elf64 => {
                let kind = reader.read_u32_at(offset, endian)?;
                let flags = reader.read_u32_at(offset + 4, endian)?;
                let off = reader.read_u64_at(offset + 8, endian)?;
                let vaddr = reader.read_u64_at(offset + 16, endian)?;
                let paddr = reader.read_u64_at(offset + 24, endian)?;
                let filesz = reader.read_u64_at(offset + 32, endian)?;
                let memsz = reader.read_u64_at(offset + 40, endian)?;
                let align = match reader.read_u64_at(offset + 48, endian) {
                    Ok(v) => v,
                    Err(e) => {
                        return Err(e);
                    },
                };
                Ok(ProgramHeader {
                    kind: SegmentType(kind),
                    flags: SegmentFlags(flags),
                    offset: off,
                    vaddr,
                    paddr,
                    filesz,
                    memsz,
                    align,
                })
            },
            ElfClass::Elf32 => {
                let kind = reader.read_u32_at(offset, endian)?;
                let off = reader.read_u32_at(offset + 4, endian)?;
                let vaddr = reader.read_u32_at(offset + 8, endian)?;
                let paddr = reader.read_u32_at(offset + 12, endian)?;
                let filesz = reader.read_u32_at(offset + 16, endian)?;
                let memsz = reader.read_u32_at(offset + 20, endian)?;
                let flags = reader.read_u32_at(offset + 24, endian)?;
                let align = match reader.read_u32_at(offset + 28, endian) {
                    Ok(v) => v,
                    Err(e) => {
                        return Err(e);
                    },
                };
                Ok(ProgramHeader {
                    kind: SegmentType(kind),
                    flags: SegmentFlags(flags),
                    offset: off as u64,
                    vaddr: vaddr as u64,
                    paddr: paddr as u64,
                    filesz: filesz as u64,
                    memsz: memsz as u64,
                    align: align as u64,
                })
            },
        }
    }

    /// Serializes the program header for `class` and appends it to `out`.
    ///
    /// For an ELF32 object each address field keeps its low 32 bits.
    pub fn write(&self, out: &mut Vec<u8>, endian: Endian, class: ElfClass)
        ensures
            final(out)@ == old(out)@ + self.bytes_spec(endian, class),
    {
        match class {
            ElfClass::Elf64 => {
                out.extend_from_slice(endian.u32_bytes(self.kind.0).as_slice());
                out.extend_from_slice(endian.u32_bytes(self.flags.0).as_slice());
                out.extend_from_slice(endian.u64_bytes(self.offset).as_slice());
                out.extend_from_slice(endian.u64_bytes(self.vaddr).as_slice());
                out.extend_from_slice(endian.u64_bytes(self.paddr).as_slice());
                out.extend_from_slice(endian.u64_bytes(self.filesz).as_slice());
                out.extend_from_slice(endian.u64_bytes(self.memsz).as_slice());
                out.extend_from_slice(endian.u64_bytes(self.align).as_slice());
            },
            ElfClass::Elf32 => {
                out.extend_from_slice(endian.u32_bytes(self.kind.0).as_slice());
                out.extend_from_slice(endian.u32_bytes(crate::low32(self.offset)).as_slice());
                out.extend_from_slice(endian.u32_bytes(crate::low32(self.vaddr)).as_slice());
                out.extend_from_slice(endian.u32_bytes(crate::low32(self.paddr)).as_slice());
                out.extend_from_slice(endian.u32_bytes(crate::low32(self.filesz)).as_slice());
                out.extend_from_slice(endian.u32_bytes(crate::low32(self.memsz)).as_slice());
                out.extend_from_slice(endian.u32_bytes(self.flags.0).as_slice());
                out.extend_from_slice(endian.u32_bytes(crate::low32(self.align)).as_slice());
            },
        }
        assert(out@ =~= old(out)@ + self.bytes_spec(endian, class));
    }

    /// Tests whether the segment is loadable.
    pub fn is_load(&self) -> (res: bool)
        ensures
            res == (self.kind.0 == SegmentType::LOAD),
    {
        self.kind.0 == SegmentType::LOAD
    }
}

/// A program header paired with the bytes it covers.
#[derive(Debug, Clone, PartialEq, Eq)]
pub struct Segment {
    /// The segment's program header.
    pub header: ProgramHeader,
    /// The segment bytes, sized by the parse layout.
    pub data: Vec<u8>,
}

impl View for Segment {
    type V = (ProgramHeader, Seq<u8>);

    open spec fn view(&self) -> (ProgramHeader, Seq<u8>) {
        (self.header, self.data@)
    }
}

/// Whether `vaddr` falls within the memory range of a segment header.
pub open spec fn header_covers(h: ProgramHeader, vaddr: u64) -> bool {
    vaddr >= h.vaddr && vaddr < sat_add(h.vaddr, h.memsz)
}

impl Segment {
    /// Creates a segment from a header and its bytes.
    pub fn new(header: ProgramHeader, data: Vec<u8>) -> (res: Self)
        ensures
            res.header == header,
            res.data@ == data@,
    {
        Segment { header, data }
    }

    /// Returns the segment permission flags.
    pub fn flags(&self) -> (res: SegmentFlags)
        ensures
            res == self.header.flags,
    {
        self.header.flags
    }

    /// Returns the segment type.
    pub fn segment_type(&self) -> (res: SegmentType)
        ensures
            res == self.header.kind,
    {
        self.header.kind
    }

    /// Tests whether `vaddr` falls within the segment's memory range.
    pub fn contains_vaddr(&self, vaddr: u64) -> (res: bool)
        ensures
            res == header_covers(self.header, vaddr),
    {
        vaddr >= self.header.vaddr && vaddr < self.header.vaddr.saturating_add(self.header.memsz)
    }

    /// Returns up to `len` bytes starting at `vaddr` from the file-backed data.
    ///
    /// Returns `None` when `vaddr` is outside the segment or has no file bytes.
    pub fn data_at_vaddr(&self, vaddr: u64, len: usize) -> (res: Option<&[u8]>)
        ensures
            ({
                let start = vaddr - self.header.vaddr;
                if !header_covers(self.header, vaddr) || start > usize::MAX || start >= self.data@.len() {
                    res is None
                } else {
                    let n = if len <= self.data@.len() - start {
                        len as int
                    } else {
                        self.data@.len() - start
                    };
                    res matches Some(s) && s@ == self.data@.subrange(start, start + n)
                }
            }),
    {
        if !self.contains_vaddr(vaddr) {
            return None;
        }
        let diff = vaddr - self.header.vaddr;
        if diff > usize::MAX as u64 {
            return None;
        }
        let start = diff as usize;
        if start >= self.data.len() {
            return None;
        }
        let remaining = self.data.len() - start;
        let n = if len <= remaining {
            len
        } else {
            remaining
        };
        Some(vstd::slice::slice_subrange(self.data.as_slice(), start, start + n))
    }
}

/// Parsing the serialized bytes of a program header, wherever they stand,
/// gives the header back when its fields fit the class.
#[verifier::spinoff_prover]
#[verifier::rlimit(60)]
pub proof fn lemma_program_header_round_trip(
    h: ProgramHeader,
    e: Endian,
    class: ElfClass,
    p: Seq<u8>,
    q: Seq<u8>,
)
    requires
        h.fits(class),
    ensures
        h.bytes_spec(e, class).len() == phdr_size(class),
        ProgramHeader::from_bytes(p + h.bytes_spec(e, class) + q, p.len() as int, e, class) == h,
{
    crate::ident::lemma_decode32_encode32(e, h.kind.0);
    crate::ident::lemma_decode32_encode32(e, h.flags.0);
    let b = h.bytes_spec(e, class);
    let c = p + b + q;
    let n = p.len() as int;
    match class {
        ElfClass::Elf64 => {
            crate::ident::lemma_decode64_encode64(e, h.offset);
            crate::ident::lemma_decode64_encode64(e, h.vaddr);
            crate::ident::lemma_decode64_encode64(e, h.paddr);
            crate::ident::lemma_decode64_encode64(e, h.filesz);
            crate::ident::lemma_decode64_encode64(e, h.memsz);
            crate::ident::lemma_decode64_encode64(e, h.align);
            assert(window(c, n, 4) =~= e.encode32(h.kind.0));
            assert(window(c, n + 4, 4) =~= e.encode32(h.flags.0));
            assert(window(c, n + 8, 8) =~= e.encode64(h.offset));
            assert(window(c, n + 16, 8) =~= e.encode64(h.vaddr));
            assert(window(c, n + 24, 8) =~= e.encode64(h.paddr));
            assert(window(c, n + 32, 8) =~= e.encode64(h.filesz));
            assert(window(c, n + 40, 8) =~= e.encode64(h.memsz));
            assert(window(c, n + 48, 8) =~= e.encode64(h.align));
        },
        ElfClass::Elf32 => {
            crate::ident::lemma_decode32_encode32(e, h.offset as u32);
            crate::ident::lemma_decode32_encode32(e, h.vaddr as u32);
            crate::ident::lemma_decode32_encode32(e, h.paddr as u32);
            crate::ident::lemma_decode32_encode32(e, h.filesz as u32);
            crate::ident::lemma_decode32_encode32(e, h.memsz as u32);
            crate::ident::lemma_decode32_encode32(e, h.align as u32);
            assert(window(c, n, 4) =~= e.encode32(h.kind.0));
            assert(window(c, n + 4, 4) =~= e.encode32(h.offset as u32));
            assert(window(c, n + 8, 4) =~= e.encode32(h.vaddr as u32));
            assert(window(c, n + 12, 4) =~= e.encode32(h.paddr as u32));
            assert(window(c, n + 16, 4) =~= e.encode32(h.filesz as u32));
            assert(window(c, n + 20, 4) =~= e.encode32(h.memsz as u32));
            assert(window(c, n + 24, 4) =~= e.encode32(h.flags.0));
            assert(window(c, n + 28, 4) =~= e.encode32(h.align as u32));
        },
    }
}

/// An ELF64 program header (`Elf64_Phdr`) holds `p_type` in bytes 0..4,
/// `p_flags` in 4..8, then `p_offset`, `p_vaddr`, `p_paddr`, `p_filesz`,
/// `p_memsz` and `p_align` as eight-byte fields from byte 8: the header read
/// from such bytes has exactly these fields.
pub proof fn lemma_program_header_layout64(
    c: Seq<u8>,
    off: int,
    e: Endian,
    kind_raw: u32,
    flags_raw: u32,
    offset: u64,
    vaddr: u64,
    paddr: u64,
    filesz: u64,
    memsz: u64,
    align: u64,
)
    requires
        0 <= off,
        off + 56 <= c.len(),
        c.subrange(off, off + 56) == e.encode32(kind_raw)
            + e.encode32(flags_raw)
            + e.encode64(offset)
            + e.encode64(vaddr)
            + e.encode64(paddr)
            + e.encode64(filesz)
            + e.encode64(memsz)
            + e.encode64(align),
    ensures
        ProgramHeader::from_bytes(c, off, e, ElfClass::Elf64) == (ProgramHeader {
            kind: SegmentType(kind_raw),
            flags: SegmentFlags(flags_raw),
            offset: offset,
            vaddr: vaddr,
            paddr: paddr,
            filesz: filesz,
            memsz: memsz,
            align: align,
        }),
{
    let entry = c.subrange(off, off + 56);
    crate::ident::lemma_decode32_encode32(e, kind_raw);
    crate::ident::lemma_decode32_encode32(e, flags_raw);
    crate::ident::lemma_decode64_encode64(e, offset);
    crate::ident::lemma_decode64_encode64(e, vaddr);
    crate::ident::lemma_decode64_encode64(e, paddr);
    crate::ident::lemma_decode64_encode64(e, filesz);
    crate::ident::lemma_decode64_encode64(e, memsz);
    crate::ident::lemma_decode64_encode64(e, align);
    assert(window(c, off, 4) =~= e.encode32(kind_raw)) by {
        assert forall|k: int| 0 <= k < 4 implies #[trigger] window(c, off, 4)[k] == entry[0 + k] by {}
    }
    assert(window(c, off + 4, 4) =~= e.encode32(flags_raw)) by {
        assert forall|k: int| 0 <= k < 4 implies #[trigger] window(c, off + 4, 4)[k] == entry[4 + k] by {}
    }
    assert(window(c, off + 8, 8) =~= e.encode64(offset)) by {
        assert forall|k: int| 0 <= k < 8 implies #[trigger] window(c, off + 8, 8)[k] == entry[8 + k] by {}
    }
    assert(window(c, off + 16, 8) =~= e.encode64(vaddr)) by {
        assert forall|k: int| 0 <= k < 8 implies #[trigger] window(c, off + 16, 8)[k] == entry[16 + k] by {}
    }
    assert(window(c, off + 24, 8) =~= e.encode64(paddr)) by {
        assert forall|k: int| 0 <= k < 8 implies #[trigger] window(c, off + 24, 8)[k] == entry[24 + k] by {}
    }
    assert(window(c, off + 32, 8) =~= e.encode64(filesz)) by {
        assert forall|k: int| 0 <= k < 8 implies #[trigger] window(c, off + 32, 8)[k] == entry[32 + k] by {}
    }
    assert(window(c, off + 40, 8) =~= e.encode64(memsz)) by {
        assert forall|k: int| 0 <= k < 8 implies #[trigger] window(c, off + 40, 8)[k] == entry[40 + k] by {}
    }
    assert(window(c, off + 48, 8) =~= e.encode64(align)) by {
        assert forall|k: int| 0 <= k < 8 implies #[trigger] window(c, off + 48, 8)[k] == entry[48 + k] by {}
    }
}

/// An ELF32 program header (`Elf32_Phdr`) holds `p_type`, `p_offset`,
/// `p_vaddr`, `p_paddr`, `p_filesz`, `p_memsz`, `p_flags` and `p_align` as
/// four-byte fields in that order: the header read from such bytes has
/// exactly these fields.
pub proof fn lemma_program_header_layout32(
    c: Seq<u8>,
    off: int,
    e: Endian,
    kind_raw: u32,
    offset: u32,
    vaddr: u32,
    paddr: u32,
    filesz: u32,
    memsz: u32,
    flags_raw: u32,
    align: u32,
)
    requires
        0 <= off,
        off + 32 <= c.len(),
        c.subrange(off, off + 32) == e.encode32(kind_raw)
            + e.encode32(offset)
            + e.encode32(vaddr)
            + e.encode32(paddr)
            + e.encode32(filesz)
            + e.encode32(memsz)
            + e.encode32(flags_raw)
            + e.encode32(align),
    ensures
        ProgramHeader::from_bytes(c, off, e, ElfClass::Elf32) == (ProgramHeader {
            kind: SegmentType(kind_raw),
            flags: SegmentFlags(flags_raw),
            offset: offset as u64,
            vaddr: vaddr as u64,
            paddr: paddr as u64,
            filesz: filesz as u64,
            memsz: memsz as u64,
            align: align as u64,
        }),
{
    let entry = c.subrange(off, off + 32);
    crate::ident::lemma_decode32_encode32(e, kind_raw);
    crate::ident::lemma_decode32_encode32(e, offset);
    crate::ident::lemma_decode32_encode32(e, vaddr);
    crate::ident::lemma_decode32_encode32(e, paddr);
    crate::ident::lemma_decode32_encode32(e, filesz);
    crate::ident::lemma_decode32_encode32(e, memsz);
    crate::ident::lemma_decode32_encode32(e, flags_raw);
    crate::ident::lemma_decode32_encode32(e, align);
    assert(window(c, off, 4) =~= e.encode32(kind_raw)) by {
        assert forall|k: int| 0 <= k < 4 implies #[trigger] window(c, off, 4)[k] == entry[0 + k] by {}
    }
    assert(window(c, off + 4, 4) =~= e.encode32(offset)) by {
        assert forall|k: int| 0 <= k < 4 implies #[trigger] window(c, off + 4, 4)[k] == entry[4 + k] by {}
    }
    assert(window(c, off + 8, 4) =~= e.encode32(vaddr)) by {
        assert forall|k: int| 0 <= k < 4 implies #[trigger] window(c, off + 8, 4)[k] == entry[8 + k] by {}
    }
    assert(window(c, off + 12, 4) =~= e.encode32(paddr)) by {
        assert forall|k: int| 0 <= k < 4 implies #[trigger] window(c, off + 12, 4)[k] == entry[12 + k] by {}
    }
    assert(window(c, off + 16, 4) =~= e.encode32(filesz)) by {
        assert forall|k: int| 0 <= k < 4 implies #[trigger] window(c, off + 16, 4)[k] == entry[16 + k] by {}
    }
    assert(window(c, off + 20, 4) =~= e.encode32(memsz)) by {
        assert forall|k: int| 0 <= k < 4 implies #[trigger] window(c, off + 20, 4)[k] == entry[20 + k] by {}
    }
    assert(window(c, off + 24, 4) =~= e.encode32(flags_raw)) by {
        assert forall|k: int| 0 <= k < 4 implies #[trigger] window(c, off + 24, 4)[k] == entry[24 + k] by {}
    }
    assert(window(c, off + 28, 4) =~= e.encode32(align)) by {
        assert forall|k: int| 0 <= k < 4 implies #[trigger] window(c, off + 28, 4)[k] == entry[28 + k] by {}
    }
}

} // verus!

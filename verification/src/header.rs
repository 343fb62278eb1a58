//! The ELF file header and the header-only view.
//!
//! [`ElfHeader`] widens every address field to 64 bits so one type serves both
//! classes. [`ElfHeaders`] parses the file header and the program header table
//! without loading segment data.

use vstd::prelude::*;

use crate::error::{Error, Result};
use crate::ident::{ident_of_bytes, ElfClass, ElfIdent};
use crate::program::{phdr_size, ProgramHeader};
use crate::reader::{field16, field32, field64, in_range, window, ReadAt, SliceReader};

verus! {

/// The object file type recorded in the `e_type` field.
#[derive(Debug, Clone, Copy, PartialEq, Eq, Hash, Structural)]
pub enum ElfType {
    /// No file type.
    NoType,
    /// Relocatable file.
    Rel,
    /// Executable file.
    Exec,
    /// Shared object or position-independent executable.
    Dyn,
    /// Core file.
    Core,
    /// Another processor-specific or unknown type.
    Other(u16),
}

/// The object type a raw `e_type` value names.
pub open spec fn elf_type_of(value: u16) -> ElfType {
    if value == 0 {
        ElfType::NoType
    } else if value == 1 {
        ElfType::Rel
    } else if value == 2 {
        ElfType::Exec
    } else if value == 3 {
        ElfType::Dyn
    } else if value == 4 {
        ElfType::Core
    } else {
        ElfType::Other(value)
    }
}

impl ElfType {
    /// The raw `e_type` value of an object type.
    pub open spec fn value_spec(self) -> u16 {
        match self {
            ElfType::NoType => 0,
            ElfType::Rel => 1,
            ElfType::Exec => 2,
            ElfType::Dyn => 3,
            ElfType::Core => 4,
            ElfType::Other(v) => v,
        }
    }

    /// Whether an `Other` value does not collide with a named type.
    pub open spec fn canonical(self) -> bool {
        self matches ElfType::Other(v) ==> v > 4
    }

    /// Converts a raw `e_type` value.
    pub fn from_u16(value: u16) -> (res: Self)
        ensures
            res == elf_type_of(value),
    {
        match value {
            0 => ElfType::NoType,
            1 => ElfType::Rel,
            2 => ElfType::Exec,
            3 => ElfType::Dyn,
            4 => ElfType::Core,
            other => ElfType::Other(other),
        }
    }

    /// Returns the raw `e_type` value.
    pub fn to_u16(self) -> (res: u16)
        ensures
            res == self.value_spec(),
    {
        match self {
            ElfType::NoType => 0,
            ElfType::Rel => 1,
            ElfType::Exec => 2,
            ElfType::Dyn => 3,
            ElfType::Core => 4,
            ElfType::Other(value) => value,
        }
    }
}

/// Converting a raw `e_type` value and back gives the value.
pub proof fn lemma_elf_type_value_round_trip(value: u16)
    ensures
        elf_type_of(value).value_spec() == value,
        elf_type_of(value).canonical(),
{
}

/// Converting a canonical object type to its raw value and back gives the type.
pub proof fn lemma_elf_type_round_trip(t: ElfType)
    requires
        t.canonical(),
    ensures
        elf_type_of(t.value_spec()) == t,
{
}

/// The machine architecture recorded in the `e_machine` field.
#[derive(Debug, Clone, Copy, PartialEq, Eq, Hash, Structural)]
pub struct Machine(pub u16);

impl Machine {
    /// No machine.
    pub const NONE: u16 = 0;
    /// Intel 80386.
    pub const I386: u16 = 3;
    /// ARM 32-bit.
    pub const ARM: u16 = 40;
    /// AMD x86-64.
    pub const X86_64: u16 = 62;
    /// ARM 64-bit.
    pub const AARCH64: u16 = 183;
    /// RISC-V.
    pub const RISCV: u16 = 243;

    /// Returns the raw `e_machine` value.
    pub fn value(self) -> (res: u16)
        ensures
            res == self.0,
    {
        self.0
    }

    /// Returns a stable short name when the machine is recognized.
    pub fn name(self) -> (res: Option<&'static str>)
        ensures
            res is Some <==> (self.0 == 3 || self.0 == 40 || self.0 == 62 || self.0 == 183
                || self.0 == 243),
            self.0 == 3 ==> res == Some("i386"),
            self.0 == 40 ==> res == Some("arm"),
            self.0 == 62 ==> res == Some("x86-64"),
            self.0 == 183 ==> res == Some("aarch64"),
            self.0 == 243 ==> res == Some("riscv"),
    {
        match self.0 {
            3 => Some("i386"),
            40 => Some("arm"),
            62 => Some("x86-64"),
            183 => Some("aarch64"),
            243 => Some("riscv"),
            _ => None,
        }
    }
}

/// A parsed ELF file header with address fields widened to 64 bits.
#[derive(Debug, Clone, Copy, PartialEq, Eq, Structural)]
pub struct ElfHeader {
    /// The identification array.
    pub ident: ElfIdent,
    /// The object file type.
    pub kind: ElfType,
    /// The machine architecture.
    pub machine: Machine,
    /// The object file version.
    pub version: u32,
    /// The entry-point virtual address.
    pub entry: u64,
    /// The program header table file offset.
    pub phoff: u64,
    /// The section header table file offset.
    pub shoff: u64,
    /// The processor-specific flags.
    pub flags: u32,
    /// The ELF header size in bytes.
    pub ehsize: u16,
    /// The size of one program header.
    pub phentsize: u16,
    /// The number of program headers.
    pub phnum: u16,
    /// The size of one section header.
    pub shentsize: u16,
    /// The number of section headers.
    pub shnum: u16,
    /// The section index of the section-name string table.
    pub shstrndx: u16,
}

/// The serialized size of an ELF header for `class`.
pub open spec fn ehdr_size(class: ElfClass) -> int {
    match class {
        ElfClass::Elf32 => 52,
        ElfClass::Elf64 => 64,
    }
}

/// The file offset of the fields that follow the three address fields.
pub open spec fn ehdr_tail(class: ElfClass) -> int {
    match class {
        ElfClass::Elf32 => 36,
        ElfClass::Elf64 => 48,
    }
}

impl ElfHeader {
    /// The ELF header that `c` holds after the identification `ident`.
    pub open spec fn from_bytes(c: Seq<u8>, ident: ElfIdent) -> ElfHeader {
        let e = ident.data;
        let t = ehdr_tail(ident.class);
        ElfHeader {
            ident,
            kind: elf_type_of(field16(c, e, 16)),
            machine: Machine(field16(c, e, 18)),
            version: field32(c, e, 20),
            entry: match ident.class {
                ElfClass::Elf64 => field64(c, e, 24),
                ElfClass::Elf32 => field32(c, e, 24) as u64,
            },
            phoff: match ident.class {
                ElfClass::Elf64 => field64(c, e, 32),
                ElfClass::Elf32 => field32(c, e, 28) as u64,
            },
            shoff: match ident.class {
                ElfClass::Elf64 => field64(c, e, 40),
                ElfClass::Elf32 => field32(c, e, 32) as u64,
            },
            flags: field32(c, e, t),
            ehsize: field16(c, e, t + 4),
            phentsize: field16(c, e, t + 6),
            phnum: field16(c, e, t + 8),
            shentsize: field16(c, e, t + 10),
            shnum: field16(c, e, t + 12),
            shstrndx: field16(c, e, t + 14),
        }
    }

    /// The serialized bytes of this header, identification included.
    pub open spec fn bytes_spec(self) -> Seq<u8> {
        let e = self.ident.data;
        let addresses = match self.ident.class {
            ElfClass::Elf64 => e.encode64(self.entry) + e.encode64(self.phoff) + e.encode64(
                self.shoff,
            ),
            ElfClass::Elf32 => e.encode32(self.entry as u32) + e.encode32(self.phoff as u32)
                + e.encode32(self.shoff as u32),
        };
        self.ident.bytes_spec() + e.encode16(self.kind.value_spec()) + e.encode16(self.machine.0)
            + e.encode32(self.version) + addresses + e.encode32(self.flags) + e.encode16(
            self.ehsize,
        ) + e.encode16(self.phentsize) + e.encode16(self.phnum) + e.encode16(self.shentsize)
            + e.encode16(self.shnum) + e.encode16(self.shstrndx)
    }

    /// Whether the address fields fit the on-disk width of the class.
    pub open spec fn fits(self) -> bool {
        self.ident.class == ElfClass::Elf64 || (self.entry <= u32::MAX && self.phoff <= u32::MAX
            && self.shoff <= u32::MAX)
    }

    /// Returns the serialized size of an ELF header for `class`.
    pub fn size(class: ElfClass) -> (res: u64)
        ensures
            res == ehdr_size(class),
    {
        match class {
            ElfClass::Elf32 => 52,
            ElfClass::Elf64 => 64,
        }
    }

    /// Parses the ELF header that follows the already-parsed `ident`.
    pub fn parse<R: ReadAt>(reader: &R, ident: ElfIdent) -> (res: Result<Self>)
        ensures
            reader.reads_fully() ==> (res is Ok <==> in_range(
                reader.contents(),
                0,
                ehdr_size(ident.class),
            )),
            reader.reads_fully() ==> (res matches Ok(h) ==> h == Self::from_bytes(
                reader.contents(),
                ident,
            )),
            res matches Ok(h) ==> h.ident == ident,
    {
        let endian = ident.data;
        let machine_raw = reader.read_u16_at(18, endian)?;
        let entry;
        let phoff;
        let shoff;
        let tail: u64;
        match ident.class {
            ElfClass::Elf64 => {
                entry = reader.read_u64_at(24, endian)?;
                phoff = reader.read_u64_at(32, endian)?;
                shoff = reader.read_u64_at(40, endian)?;
                tail = 48;
            },
            ElfClass::Elf32 => {
                entry = reader.read_u32_at(24, endian)? as u64;
                phoff = reader.read_u32_at(28, endian)? as u64;
                shoff = reader.read_u32_at(32, endian)? as u64;
                tail = 36;
            },
        }
        let kind = reader.read_u16_at(16, endian)?;
        let version = reader.read_u32_at(20, endian)?;
        let flags = reader.read_u32_at(tail, endian)?;
        let ehsize = reader.read_u16_at(tail + 4, endian)?;
        let phentsize = reader.read_u16_at(tail + 6, endian)?;
        let phnum = reader.read_u16_at(tail + 8, endian)?;
        let shentsize = reader.read_u16_at(tail + 10, endian)?;
        let shnum = reader.read_u16_at(tail + 12, endian)?;
        let shstrndx = match reader.read_u16_at(tail + 14, endian) {
            Ok(v) => v,
            Err(e) => {
                return Err(e);
            },
        };
        Ok(ElfHeader {
            ident,
            kind: ElfType::from_u16(kind),
            machine: Machine(machine_raw),
            version,
            entry,
            phoff,
            shoff,
            flags,
            ehsize,
            phentsize,
            phnum,
            shentsize,
            shnum,
            shstrndx,
        })
    }

    /// Serializes the ELF header and appends it to `out`.
    ///
    /// For an ELF32 object each address field keeps its low 32 bits.
    pub fn write(&self, out: &mut Vec<u8>)
        ensures
            final(out)@ == old(out)@ + self.bytes_spec(),
    {
        let endian = self.ident.data;
        out.extend_from_slice(self.ident.to_bytes().as_slice());
        out.extend_from_slice(endian.u16_bytes(self.kind.to_u16()).as_slice());
        out.extend_from_slice(endian.u16_bytes(self.machine.0).as_slice());
        out.extend_from_slice(endian.u32_bytes(self.version).as_slice());
        match self.ident.class {
            ElfClass::Elf64 => {
                out.extend_from_slice(endian.u64_bytes(self.entry).as_slice());
                out.extend_from_slice(endian.u64_bytes(self.phoff).as_slice());
                out.extend_from_slice(endian.u64_bytes(self.shoff).as_slice());
            },
            ElfClass::Elf32 => {
                out.extend_from_slice(endian.u32_bytes(crate::low32(self.entry)).as_slice());
                out.extend_from_slice(endian.u32_bytes(crate::low32(self.phoff)).as_slice());
                out.extend_from_slice(endian.u32_bytes(crate::low32(self.shoff)).as_slice());
            },
        }
        out.extend_from_slice(endian.u32_bytes(self.flags).as_slice());
        out.extend_from_slice(endian.u16_bytes(self.ehsize).as_slice());
        out.extend_from_slice(endian.u16_bytes(self.phentsize).as_slice());
        out.extend_from_slice(endian.u16_bytes(self.phnum).as_slice());
        out.extend_from_slice(endian.u16_bytes(self.shentsize).as_slice());
        out.extend_from_slice(endian.u16_bytes(self.shnum).as_slice());
        out.extend_from_slice(endian.u16_bytes(self.shstrndx).as_slice());
        assert(out@ =~= old(out)@ + self.bytes_spec());
    }
}

/// The fields of an ELF header that follow its identification decode from
/// their serialized bytes.
#[verifier::spinoff_prover]
#[verifier::rlimit(60)]
proof fn lemma_elf_header_fields(h: ElfHeader, q: Seq<u8>)
    requires
        h.kind.canonical(),
    ensures
        ({
            let c = h.bytes_spec() + q;
            let e = h.ident.data;
            let t = ehdr_tail(h.ident.class);
            &&& window(c, 0, 16) == h.ident.bytes_spec()
            &&& field16(c, e, 16) == h.kind.value_spec()
            &&& field16(c, e, 18) == h.machine.0
            &&& field32(c, e, 20) == h.version
            &&& field32(c, e, t) == h.flags
            &&& field16(c, e, t + 4) == h.ehsize
            &&& field16(c, e, t + 6) == h.phentsize
            &&& field16(c, e, t + 8) == h.phnum
            &&& field16(c, e, t + 10) == h.shentsize
            &&& field16(c, e, t + 12) == h.shnum
            &&& field16(c, e, t + 14) == h.shstrndx
        }),
{
    let e = h.ident.data;
    let t = ehdr_tail(h.ident.class);
    let head = h.ident.bytes_spec() + e.encode16(h.kind.value_spec()) + e.encode16(h.machine.0)
        + e.encode32(h.version);
    let addresses = match h.ident.class {
        ElfClass::Elf64 => e.encode64(h.entry) + e.encode64(h.phoff) + e.encode64(h.shoff),
        ElfClass::Elf32 => e.encode32(h.entry as u32) + e.encode32(h.phoff as u32) + e.encode32(
            h.shoff as u32,
        ),
    };
    let tail = e.encode32(h.flags) + e.encode16(h.ehsize) + e.encode16(h.phentsize) + e.encode16(
        h.phnum,
    ) + e.encode16(h.shentsize) + e.encode16(h.shnum) + e.encode16(h.shstrndx);
    crate::ident::lemma_decode16_encode16(e, h.kind.value_spec());
    crate::ident::lemma_decode16_encode16(e, h.machine.0);
    crate::ident::lemma_decode32_encode32(e, h.version);
    crate::ident::lemma_decode32_encode32(e, h.flags);
    crate::ident::lemma_decode16_encode16(e, h.ehsize);
    crate::ident::lemma_decode16_encode16(e, h.phentsize);
    crate::ident::lemma_decode16_encode16(e, h.phnum);
    crate::ident::lemma_decode16_encode16(e, h.shentsize);
    crate::ident::lemma_decode16_encode16(e, h.shnum);
    crate::ident::lemma_decode16_encode16(e, h.shstrndx);
    crate::ident::lemma_decode64_encode64(e, h.entry);
    crate::ident::lemma_decode32_encode32(e, h.entry as u32);
    crate::ident::lemma_decode64_encode64(e, h.phoff);
    crate::ident::lemma_decode64_encode64(e, h.shoff);
    assert(addresses.len() == t - 24);
    assert(head.len() == 24);
    assert(tail.len() == 16);
    let c = h.bytes_spec() + q;
    assert(c =~= head + (addresses + (tail + q)));
    assert(window(c, 0, 16) =~= h.ident.bytes_spec());
    assert(window(c, 16, 2) =~= e.encode16(h.kind.value_spec()));
    assert(window(c, 18, 2) =~= e.encode16(h.machine.0));
    assert(window(c, 20, 4) =~= e.encode32(h.version));
    let r = tail + q;
    assert(c =~= (head + addresses) + r);
    assert(window(c, t, 4) =~= e.encode32(h.flags));
    assert(window(c, t + 4, 2) =~= e.encode16(h.ehsize));
    assert(window(c, t + 6, 2) =~= e.encode16(h.phentsize));
    assert(window(c, t + 8, 2) =~= e.encode16(h.phnum));
    assert(window(c, t + 10, 2) =~= e.encode16(h.shentsize));
    assert(window(c, t + 12, 2) =~= e.encode16(h.shnum));
    assert(window(c, t + 14, 2) =~= e.encode16(h.shstrndx));
}

/// The address fields of an ELF header decode from their serialized bytes
/// when they fit the class.
#[verifier::spinoff_prover]
#[verifier::rlimit(60)]
proof fn lemma_elf_header_addresses(h: ElfHeader, q: Seq<u8>)
    requires
        h.fits(),
    ensures
        ({
            let c = h.bytes_spec() + q;
            let e = h.ident.data;
            &&& h.ident.class == ElfClass::Elf64 ==> field64(c, e, 24) == h.entry && field64(c, e, 32)
                == h.phoff && field64(c, e, 40) == h.shoff
            &&& h.ident.class == ElfClass::Elf32 ==> field32(c, e, 24) as u64 == h.entry
                && field32(c, e, 28) as u64 == h.phoff && field32(c, e, 32) as u64 == h.shoff
        }),
{
    let e = h.ident.data;
    let head = h.ident.bytes_spec() + e.encode16(h.kind.value_spec()) + e.encode16(h.machine.0)
        + e.encode32(h.version);
    let tail = e.encode32(h.flags) + e.encode16(h.ehsize) + e.encode16(h.phentsize) + e.encode16(
        h.phnum,
    ) + e.encode16(h.shentsize) + e.encode16(h.shnum) + e.encode16(h.shstrndx);
    crate::ident::lemma_decode16_encode16(e, h.kind.value_spec());
    crate::ident::lemma_decode16_encode16(e, h.machine.0);
    crate::ident::lemma_decode32_encode32(e, h.version);
    assert(head.len() == 24);
    let c = h.bytes_spec() + q;
    match h.ident.class {
        ElfClass::Elf64 => {
            crate::ident::lemma_decode64_encode64(e, h.entry);
            crate::ident::lemma_decode64_encode64(e, h.phoff);
            crate::ident::lemma_decode64_encode64(e, h.shoff);
            let a = e.encode64(h.entry) + e.encode64(h.phoff) + e.encode64(h.shoff);
            assert(c =~= head + (a + (tail + q)));
            assert(window(c, 24, 8) =~= e.encode64(h.entry));
            assert(window(c, 32, 8) =~= e.encode64(h.phoff));
            assert(window(c, 40, 8) =~= e.encode64(h.shoff));
        },
        ElfClass::Elf32 => {
            crate::ident::lemma_decode32_encode32(e, h.entry as u32);
            crate::ident::lemma_decode32_encode32(e, h.phoff as u32);
            crate::ident::lemma_decode32_encode32(e, h.shoff as u32);
            let a = e.encode32(h.entry as u32) + e.encode32(h.phoff as u32) + e.encode32(
                h.shoff as u32,
            );
            assert(c =~= head + (a + (tail + q)));
            assert(window(c, 24, 4) =~= e.encode32(h.entry as u32));
            assert(window(c, 28, 4) =~= e.encode32(h.phoff as u32));
            assert(window(c, 32, 4) =~= e.encode32(h.shoff as u32));
        },
    }
}

/// The serialized ELF header has the header size of its class.
pub proof fn lemma_elf_header_len(h: ElfHeader)
    ensures
        h.bytes_spec().len() == ehdr_size(h.ident.class),
{
    let e = h.ident.data;
    assert(forall|v: u16| #[trigger] e.encode16(v).len() == 2);
    assert(forall|v: u32| #[trigger] e.encode32(v).len() == 4);
    assert(forall|v: u64| #[trigger] e.encode64(v).len() == 8);
}

/// Parsing the serialized bytes of an ELF header, followed by anything, gives
/// the identification and the header back, when the address fields fit the
/// class and the object type is canonical.
pub proof fn lemma_elf_header_round_trip(h: ElfHeader, q: Seq<u8>)
    requires
        h.fits(),
        h.kind.canonical(),
    ensures
        h.bytes_spec().len() == ehdr_size(h.ident.class),
        ident_of_bytes(window(h.bytes_spec() + q, 0, 16)) == Some(h.ident),
        ElfHeader::from_bytes(h.bytes_spec() + q, h.ident) == h,
{
    crate::ident::lemma_ident_round_trip(h.ident);
    lemma_elf_header_fields(h, q);
    lemma_elf_header_addresses(h, q);
    lemma_elf_type_round_trip(h.kind);
    let e = h.ident.data;
    crate::ident::lemma_decode16_encode16(e, h.kind.value_spec());
    crate::ident::lemma_decode32_encode32(e, h.version);
    crate::ident::lemma_decode32_encode32(e, h.flags);
    crate::ident::lemma_decode16_encode16(e, h.machine.0);
    crate::ident::lemma_decode16_encode16(e, h.ehsize);
    crate::ident::lemma_decode64_encode64(e, h.entry);
    crate::ident::lemma_decode32_encode32(e, h.entry as u32);
    crate::ident::lemma_decode64_encode64(e, h.phoff);
    crate::ident::lemma_decode32_encode32(e, h.phoff as u32);
    crate::ident::lemma_decode64_encode64(e, h.shoff);
    crate::ident::lemma_decode32_encode32(e, h.shoff as u32);
    crate::ident::lemma_decode16_encode16(e, h.phentsize);
    crate::ident::lemma_decode16_encode16(e, h.phnum);
    crate::ident::lemma_decode16_encode16(e, h.shentsize);
    crate::ident::lemma_decode16_encode16(e, h.shnum);
    crate::ident::lemma_decode16_encode16(e, h.shstrndx);
}

/// The file offset of program header `i` of `header`.
pub open spec fn phdr_offset(header: ElfHeader, i: int) -> int {
    header.phoff + i * phdr_size(header.ident.class)
}

/// Whether every program header of `header` lies inside `c` at an offset that
/// leaves room for the whole entry below `u64::MAX`.
pub open spec fn phdr_table_ok(c: Seq<u8>, header: ElfHeader) -> bool {
    forall|i: int|
        0 <= i < header.phnum ==> phdr_offset(header, i) + phdr_size(header.ident.class) <= u64::MAX
            && in_range(c, #[trigger] phdr_offset(header, i), phdr_size(header.ident.class))
}

/// The program header table of `header` in `c`.
pub open spec fn phdr_table(c: Seq<u8>, header: ElfHeader) -> Seq<ProgramHeader> {
    Seq::new(
        header.phnum as nat,
        |i: int|
            ProgramHeader::from_bytes(
                c,
                phdr_offset(header, i),
                header.ident.data,
                header.ident.class,
            ),
    )
}

/// The identification, header, and program header table that `c` holds,
/// when it holds all of them.
pub open spec fn headers_of(c: Seq<u8>) -> Option<(ElfIdent, ElfHeader, Seq<ProgramHeader>)> {
    if !in_range(c, 0, 16) {
        None
    } else {
        match ident_of_bytes(window(c, 0, 16)) {
            None => None,
            Some(ident) => {
                let header = ElfHeader::from_bytes(c, ident);
                if in_range(c, 0, ehdr_size(ident.class)) && phdr_table_ok(c, header) {
                    Some((ident, header, phdr_table(c, header)))
                } else {
                    None
                }
            },
        }
    }
}

/// The ELF identity, file header, and parsed program headers.
///
/// This view reads structural headers without loading segment or section data.
#[derive(Debug, Clone, PartialEq, Eq)]
pub struct ElfHeaders {
    /// The identification array.
    pub ident: ElfIdent,
    /// The file header.
    pub header: ElfHeader,
    /// The parsed program header table.
    pub program_headers: Vec<ProgramHeader>,
}

impl View for ElfHeaders {
    type V = (ElfIdent, ElfHeader, Seq<ProgramHeader>);

    open spec fn view(&self) -> (ElfIdent, ElfHeader, Seq<ProgramHeader>) {
        (self.ident, self.header, self.program_headers@)
    }
}

impl ElfHeaders {
    /// Parses the ELF identity, header, and program header table from `reader`.
    pub fn read_from<R: ReadAt>(reader: &R) -> (res: Result<Self>)
        ensures
            reader.reads_fully() ==> (res is Ok <==> headers_of(reader.contents()) is Some),
            reader.reads_fully() ==> (res matches Ok(h) ==> headers_of(reader.contents()) == Some(h@)),
            res matches Ok(h) ==> h.header.ident == h.ident && h.program_headers@.len()
                == h.header.phnum,
    {
        let ghost c = reader.contents();
        let ghost full = reader.reads_fully();
        let mut ident_bytes = [0u8; 16];
        reader.read_exact_at(0, &mut ident_bytes)?;
        assert(full ==> ident_bytes@ == window(c, 0, 16));
        let ident = ElfIdent::parse(&ident_bytes)?;
        let header = ElfHeader::parse(reader, ident)?;
        let endian = ident.data;
        let class = ident.class;
        let entry_size = ProgramHeader::size(class);
        let mut program_headers: Vec<ProgramHeader> = Vec::new();
        let count = header.phnum as u64;
        let mut index: u64 = 0;
        while index < count
            invariant
                index <= count,
                count == header.phnum,
                c == reader.contents(),
                full == reader.reads_fully(),
                full ==> in_range(c, 0, 16),
                full ==> ident_of_bytes(window(c, 0, 16)) == Some(ident),
                full ==> in_range(c, 0, ehdr_size(ident.class)),
                full ==> header == ElfHeader::from_bytes(c, ident),
                endian == ident.data,
                class == ident.class,
                entry_size == phdr_size(class),
                program_headers@.len() == index,
                full ==> forall|i: int|
                    0 <= i < index ==> phdr_offset(header, i) + phdr_size(class) <= u64::MAX
                        && in_range(c, #[trigger] phdr_offset(header, i), phdr_size(class))
                        && program_headers@[i] == ProgramHeader::from_bytes(
                        c,
                        phdr_offset(header, i),
                        endian,
                        class,
                    ),
            decreases count - index,
        {
            let offset = match header.phoff.checked_add(index * entry_size) {
                Some(o) => o,
                None => {
                    proof {
                        if full {
                            assert(!(phdr_offset(header, index as int) + phdr_size(class) <= u64::MAX));
                            assert(!phdr_table_ok(c, header));
                        }
                    }
                    return Err(Error::generic("program header table offset overflows"));
                },
            };
            if offset > u64::MAX - entry_size {
                proof {
                    if full {
                        assert(!(phdr_offset(header, index as int) + phdr_size(class) <= u64::MAX));
                        assert(!phdr_table_ok(c, header));
                    }
                }
                return Err(Error::generic("program header table offset overflows"));
            }
            let ph = match ProgramHeader::parse(reader, offset, endian, class) {
                Ok(ph) => ph,
                Err(e) => {
                    proof {
                        if reader.reads_fully() {
                            assert(!in_range(c, phdr_offset(header, index as int), phdr_size(class)));
                            assert(!phdr_table_ok(c, header));
                        }
                    }
                    return Err(e);
                },
            };
            program_headers.push(ph);
            index = index + 1;
        }
        let res = ElfHeaders { ident, header, program_headers };
        assert(full ==> res.program_headers@ =~= phdr_table(c, header));
        Ok(res)
    }

    /// Parses the ELF identity, header, and program header table from `data`.
    pub fn from_slice(data: &[u8]) -> (res: Result<Self>)
        ensures
            res matches Ok(h) ==> headers_of(data@) == Some(h@),
            res is Ok <==> headers_of(data@) is Some,
    {
        Self::read_from(&SliceReader::new(data))
    }
}

/// After the sixteen identification bytes, an ELF64 header (`Elf64_Ehdr`)
/// holds `e_type` and `e_machine` as two-byte fields, `e_version` as a
/// four-byte field, `e_entry`, `e_phoff` and `e_shoff` as eight-byte fields,
/// `e_flags` as a four-byte field, then `e_ehsize`, `e_phentsize`, `e_phnum`,
/// `e_shentsize`, `e_shnum` and `e_shstrndx` as two-byte fields, in the
/// identification's byte order: the header read from such bytes has exactly
/// these fields.
pub proof fn lemma_elf_header_layout64(
    c: Seq<u8>,
    ident: ElfIdent,
    type_raw: u16,
    machine: u16,
    version: u32,
    entry: u64,
    phoff: u64,
    shoff: u64,
    flags: u32,
    ehsize: u16,
    phentsize: u16,
    phnum: u16,
    shentsize: u16,
    shnum: u16,
    shstrndx: u16,
)
    requires
        ident.class == ElfClass::Elf64,
        64 <= c.len(),
        c.subrange(16int, 64int) == ident.data.encode16(type_raw)
            + ident.data.encode16(machine)
            + ident.data.encode32(version)
            + ident.data.encode64(entry)
            + ident.data.encode64(phoff)
            + ident.data.encode64(shoff)
            + ident.data.encode32(flags)
            + ident.data.encode16(ehsize)
            + ident.data.encode16(phentsize)
            + ident.data.encode16(phnum)
            + ident.data.encode16(shentsize)
            + ident.data.encode16(shnum)
            + ident.data.encode16(shstrndx),
    ensures
        ElfHeader::from_bytes(c, ident) == (ElfHeader {
            ident,
            kind: elf_type_of(type_raw),
            machine: Machine(machine),
            version,
            entry: entry,
            phoff: phoff,
            shoff: shoff,
            flags,
            ehsize,
            phentsize,
            phnum,
            shentsize,
            shnum,
            shstrndx,
        }),
{
    let off = 16int;
    let bytes = c.subrange(16int, 64int);
    crate::ident::lemma_decode16_encode16(ident.data, type_raw);
    crate::ident::lemma_decode16_encode16(ident.data, machine);
    crate::ident::lemma_decode32_encode32(ident.data, version);
    crate::ident::lemma_decode64_encode64(ident.data, entry);
    crate::ident::lemma_decode64_encode64(ident.data, phoff);
    crate::ident::lemma_decode64_encode64(ident.data, shoff);
    crate::ident::lemma_decode32_encode32(ident.data, flags);
    crate::ident::lemma_decode16_encode16(ident.data, ehsize);
    crate::ident::lemma_decode16_encode16(ident.data, phentsize);
    crate::ident::lemma_decode16_encode16(ident.data, phnum);
    crate::ident::lemma_decode16_encode16(ident.data, shentsize);
    crate::ident::lemma_decode16_encode16(ident.data, shnum);
    crate::ident::lemma_decode16_encode16(ident.data, shstrndx);
    assert(window(c, off + 0, 2) =~= ident.data.encode16(type_raw)) by {
        assert forall|k: int| 0 <= k < 2 implies #[trigger] window(c, off + 0, 2)[k] == bytes[0 + k] by {}
    }
    assert(window(c, off + 2, 2) =~= ident.data.encode16(machine)) by {
        assert forall|k: int| 0 <= k < 2 implies #[trigger] window(c, off + 2, 2)[k] == bytes[2 + k] by {}
    }
    assert(window(c, off + 4, 4) =~= ident.data.encode32(version)) by {
        assert forall|k: int| 0 <= k < 4 implies #[trigger] window(c, off + 4, 4)[k] == bytes[4 + k] by {}
    }
    assert(window(c, off + 8, 8) =~= ident.data.encode64(entry)) by {
        assert forall|k: int| 0 <= k < 8 implies #[trigger] window(c, off + 8, 8)[k] == bytes[8 + k] by {}
    }
    assert(window(c, off + 16, 8) =~= ident.data.encode64(phoff)) by {
        assert forall|k: int| 0 <= k < 8 implies #[trigger] window(c, off + 16, 8)[k] == bytes[16 + k] by {}
    }
    assert(window(c, off + 24, 8) =~= ident.data.encode64(shoff)) by {
        assert forall|k: int| 0 <= k < 8 implies #[trigger] window(c, off + 24, 8)[k] == bytes[24 + k] by {}
    }
    assert(window(c, off + 32, 4) =~= ident.data.encode32(flags)) by {
        assert forall|k: int| 0 <= k < 4 implies #[trigger] window(c, off + 32, 4)[k] == bytes[32 + k] by {}
    }
    assert(window(c, off + 36, 2) =~= ident.data.encode16(ehsize)) by {
        assert forall|k: int| 0 <= k < 2 implies #[trigger] window(c, off + 36, 2)[k] == bytes[36 + k] by {}
    }
    assert(window(c, off + 38, 2) =~= ident.data.encode16(phentsize)) by {
        assert forall|k: int| 0 <= k < 2 implies #[trigger] window(c, off + 38, 2)[k] == bytes[38 + k] by {}
    }
    assert(window(c, off + 40, 2) =~= ident.data.encode16(phnum)) by {
        assert forall|k: int| 0 <= k < 2 implies #[trigger] window(c, off + 40, 2)[k] == bytes[40 + k] by {}
    }
    assert(window(c, off + 42, 2) =~= ident.data.encode16(shentsize)) by {
        assert forall|k: int| 0 <= k < 2 implies #[trigger] window(c, off + 42, 2)[k] == bytes[42 + k] by {}
    }
    assert(window(c, off + 44, 2) =~= ident.data.encode16(shnum)) by {
        assert forall|k: int| 0 <= k < 2 implies #[trigger] window(c, off + 44, 2)[k] == bytes[44 + k] by {}
    }
    assert(window(c, off + 46, 2) =~= ident.data.encode16(shstrndx)) by {
        assert forall|k: int| 0 <= k < 2 implies #[trigger] window(c, off + 46, 2)[k] == bytes[46 + k] by {}
    }
}

/// After the sixteen identification bytes, an ELF32 header (`Elf32_Ehdr`)
/// holds `e_type` and `e_machine` as two-byte fields, `e_version`, `e_entry`,
/// `e_phoff`, `e_shoff` and `e_flags` as four-byte fields, then `e_ehsize`,
/// `e_phentsize`, `e_phnum`, `e_shentsize`, `e_shnum` and `e_shstrndx` as
/// two-byte fields, in the identification's byte order: the header read from
/// such bytes has exactly these fields.
pub proof fn lemma_elf_header_layout32(
    c: Seq<u8>,
    ident: ElfIdent,
    type_raw: u16,
    machine: u16,
    version: u32,
    entry: u32,
    phoff: u32,
    shoff: u32,
    flags: u32,
    ehsize: u16,
    phentsize: u16,
    phnum: u16,
    shentsize: u16,
    shnum: u16,
    shstrndx: u16,
)
    requires
        ident.class == ElfClass::Elf32,
        52 <= c.len(),
        c.subrange(16int, 52int) == ident.data.encode16(type_raw)
            + ident.data.encode16(machine)
            + ident.data.encode32(version)
            + ident.data.encode32(entry)
            + ident.data.encode32(phoff)
            + ident.data.encode32(shoff)
            + ident.data.encode32(flags)
            + ident.data.encode16(ehsize)
            + ident.data.encode16(phentsize)
            + ident.data.encode16(phnum)
            + ident.data.encode16(shentsize)
            + ident.data.encode16(shnum)
            + ident.data.encode16(shstrndx),
    ensures
        ElfHeader::from_bytes(c, ident) == (ElfHeader {
            ident,
            kind: elf_type_of(type_raw),
            machine: Machine(machine),
            version,
            entry: entry as u64,
            phoff: phoff as u64,
            shoff: shoff as u64,
            flags,
            ehsize,
            phentsize,
            phnum,
            shentsize,
            shnum,
            shstrndx,
        }),
{
    let off = 16int;
    let bytes = c.subrange(16int, 52int);
    crate::ident::lemma_decode16_encode16(ident.data, type_raw);
    crate::ident::lemma_decode16_encode16(ident.data, machine);
    crate::ident::lemma_decode32_encode32(ident.data, version);
    crate::ident::lemma_decode32_encode32(ident.data, entry);
    crate::ident::lemma_decode32_encode32(ident.data, phoff);
    crate::ident::lemma_decode32_encode32(ident.data, shoff);
    crate::ident::lemma_decode32_encode32(ident.data, flags);
    crate::ident::lemma_decode16_encode16(ident.data, ehsize);
    crate::ident::lemma_decode16_encode16(ident.data, phentsize);
    crate::ident::lemma_decode16_encode16(ident.data, phnum);
    crate::ident::lemma_decode16_encode16(ident.data, shentsize);
    crate::ident::lemma_decode16_encode16(ident.data, shnum);
    crate::ident::lemma_decode16_encode16(ident.data, shstrndx);
    assert(window(c, off + 0, 2) =~= ident.data.encode16(type_raw)) by {
        assert forall|k: int| 0 <= k < 2 implies #[trigger] window(c, off + 0, 2)[k] == bytes[0 + k] by {}
    }
    assert(window(c, off + 2, 2) =~= ident.data.encode16(machine)) by {
        assert forall|k: int| 0 <= k < 2 implies #[trigger] window(c, off + 2, 2)[k] == bytes[2 + k] by {}
    }
    assert(window(c, off + 4, 4) =~= ident.data.encode32(version)) by {
        assert forall|k: int| 0 <= k < 4 implies #[trigger] window(c, off + 4, 4)[k] == bytes[4 + k] by {}
    }
    assert(window(c, off + 8, 4) =~= ident.data.encode32(entry)) by {
        assert forall|k: int| 0 <= k < 4 implies #[trigger] window(c, off + 8, 4)[k] == bytes[8 + k] by {}
    }
    assert(window(c, off + 12, 4) =~= ident.data.encode32(phoff)) by {
        assert forall|k: int| 0 <= k < 4 implies #[trigger] window(c, off + 12, 4)[k] == bytes[12 + k] by {}
    }
    assert(window(c, off + 16, 4) =~= ident.data.encode32(shoff)) by {
        assert forall|k: int| 0 <= k < 4 implies #[trigger] window(c, off + 16, 4)[k] == bytes[16 + k] by {}
    }
    assert(window(c, off + 20, 4) =~= ident.data.encode32(flags)) by {
        assert forall|k: int| 0 <= k < 4 implies #[trigger] window(c, off + 20, 4)[k] == bytes[20 + k] by {}
    }
    assert(window(c, off + 24, 2) =~= ident.data.encode16(ehsize)) by {
        assert forall|k: int| 0 <= k < 2 implies #[trigger] window(c, off + 24, 2)[k] == bytes[24 + k] by {}
    }
    assert(window(c, off + 26, 2) =~= ident.data.encode16(phentsize)) by {
        assert forall|k: int| 0 <= k < 2 implies #[trigger] window(c, off + 26, 2)[k] == bytes[26 + k] by {}
    }
    assert(window(c, off + 28, 2) =~= ident.data.encode16(phnum)) by {
        assert forall|k: int| 0 <= k < 2 implies #[trigger] window(c, off + 28, 2)[k] == bytes[28 + k] by {}
    }
    assert(window(c, off + 30, 2) =~= ident.data.encode16(shentsize)) by {
        assert forall|k: int| 0 <= k < 2 implies #[trigger] window(c, off + 30, 2)[k] == bytes[30 + k] by {}
    }
    assert(window(c, off + 32, 2) =~= ident.data.encode16(shnum)) by {
        assert forall|k: int| 0 <= k < 2 implies #[trigger] window(c, off + 32, 2)[k] == bytes[32 + k] by {}
    }
    assert(window(c, off + 34, 2) =~= ident.data.encode16(shstrndx)) by {
        assert forall|k: int| 0 <= k < 2 implies #[trigger] window(c, off + 34, 2)[k] == bytes[34 + k] by {}
    }
}

} // verus!

//! ELF identification bytes, byte orders, and fixed-width field codecs.
//!
//! The first sixteen bytes of an ELF file form the identification array. This
//! module parses that array into an [`ElfIdent`] and defines the [`ElfClass`],
//! [`Endian`], and [`OsAbi`] values the rest of the crate uses.

use vstd::prelude::*;

use crate::error::{Error, ErrorKind, Result};

verus! {

/// The size of the ELF identification array in bytes.
pub const EI_NIDENT: usize = 16;

/// Packs two bytes, least significant first, into a `u16`.
pub open spec fn pack16(b0: u8, b1: u8) -> u16 {
    ((b0 as u16) | ((b1 as u16) << 8u16)) as u16
}

/// Packs four bytes, least significant first, into a `u32`.
pub open spec fn pack32(b0: u8, b1: u8, b2: u8, b3: u8) -> u32 {
    ((b0 as u32) | ((b1 as u32) << 8u32) | ((b2 as u32) << 16u32) | ((b3 as u32) << 24u32)) as u32
}

/// Packs eight bytes, least significant first, into a `u64`.
pub open spec fn pack64(b0: u8, b1: u8, b2: u8, b3: u8, b4: u8, b5: u8, b6: u8, b7: u8) -> u64 {
    ((b0 as u64) | ((b1 as u64) << 8u64) | ((b2 as u64) << 16u64) | ((b3 as u64) << 24u64) | ((
    b4 as u64) << 32u64) | ((b5 as u64) << 40u64) | ((b6 as u64) << 48u64) | ((b7 as u64)
        << 56u64)) as u64
}

/// The low byte of `v`.
pub open spec fn low_byte(v: u64) -> u8 {
    (v & 0xffu64) as u8
}

/// The little-endian byte sequence of a 16-bit value.
pub open spec fn le16(v: u16) -> Seq<u8> {
    seq![low_byte(v as u64), low_byte((v >> 8u16) as u64)]
}

/// The little-endian byte sequence of a 32-bit value.
pub open spec fn le32(v: u32) -> Seq<u8> {
    seq![
        low_byte(v as u64),
        low_byte((v >> 8u32) as u64),
        low_byte((v >> 16u32) as u64),
        low_byte((v >> 24u32) as u64),
    ]
}

/// The little-endian byte sequence of a 64-bit value.
pub open spec fn le64(v: u64) -> Seq<u8> {
    seq![
        low_byte(v),
        low_byte(v >> 8u64),
        low_byte(v >> 16u64),
        low_byte(v >> 24u64),
        low_byte(v >> 32u64),
        low_byte(v >> 40u64),
        low_byte(v >> 48u64),
        low_byte(v >> 56u64),
    ]
}

/// The address width class of an ELF object.
#[derive(Debug, Clone, Copy, PartialEq, Eq, Hash, Structural)]
pub enum ElfClass {
    /// 32-bit object with 32-bit address fields.
    Elf32,
    /// 64-bit object with 64-bit address fields.
    Elf64,
}

/// The class that an `EI_CLASS` byte names, when it names one.
pub open spec fn class_of_byte(value: u8) -> Option<ElfClass> {
    if value == 1 {
        Some(ElfClass::Elf32)
    } else if value == 2 {
        Some(ElfClass::Elf64)
    } else {
        None
    }
}

impl ElfClass {
    /// The `EI_CLASS` byte of a class.
    pub open spec fn byte_spec(self) -> u8 {
        match self {
            ElfClass::Elf32 => 1,
            ElfClass::Elf64 => 2,
        }
    }

    /// Parses the `EI_CLASS` byte.
    pub fn from_byte(value: u8) -> (res: Result<Self>)
        ensures
            match class_of_byte(value) {
                Some(c) => res == Ok::<ElfClass, Error>(c),
                None => res matches Err(e) && e.kind_spec() == ErrorKind::InvalidClass(value),
            },
    {
        match value {
            1 => Ok(ElfClass::Elf32),
            2 => Ok(ElfClass::Elf64),
            other => Err(Error::invalid_class(other)),
        }
    }

    /// Returns the `EI_CLASS` byte for this class.
    pub fn to_byte(self) -> (res: u8)
        ensures
            res == self.byte_spec(),
    {
        match self {
            ElfClass::Elf32 => 1,
            ElfClass::Elf64 => 2,
        }
    }

    /// Tests whether the class uses 64-bit address fields.
    pub fn is_64bit(self) -> (res: bool)
        ensures
            res == (self == ElfClass::Elf64),
    {
        match self {
            ElfClass::Elf64 => true,
            ElfClass::Elf32 => false,
        }
    }
}

/// The byte order of an ELF object.
#[derive(Debug, Clone, Copy, PartialEq, Eq, Hash, Structural)]
pub enum Endian {
    /// Least significant byte first.
    Little,
    /// Most significant byte first.
    Big,
}

/// The byte order that an `EI_DATA` byte names, when it names one.
pub open spec fn endian_of_byte(value: u8) -> Option<Endian> {
    if value == 1 {
        Some(Endian::Little)
    } else if value == 2 {
        Some(Endian::Big)
    } else {
        None
    }
}

impl Endian {
    /// The `EI_DATA` byte of a byte order.
    pub open spec fn byte_spec(self) -> u8 {
        match self {
            Endian::Little => 1,
            Endian::Big => 2,
        }
    }

    /// Puts a little-endian byte sequence into this byte order.
    pub open spec fn order(self, le: Seq<u8>) -> Seq<u8> {
        match self {
            Endian::Little => le,
            Endian::Big => le.reverse(),
        }
    }

    /// The value of two bytes in this byte order.
    pub open spec fn decode16(self, b: Seq<u8>) -> u16 {
        match self {
            Endian::Little => pack16(b[0], b[1]),
            Endian::Big => pack16(b[1], b[0]),
        }
    }

    /// The value of four bytes in this byte order.
    pub open spec fn decode32(self, b: Seq<u8>) -> u32 {
        match self {
            Endian::Little => pack32(b[0], b[1], b[2], b[3]),
            Endian::Big => pack32(b[3], b[2], b[1], b[0]),
        }
    }

    /// The value of eight bytes in this byte order.
    pub open spec fn decode64(self, b: Seq<u8>) -> u64 {
        match self {
            Endian::Little => pack64(b[0], b[1], b[2], b[3], b[4], b[5], b[6], b[7]),
            Endian::Big => pack64(b[7], b[6], b[5], b[4], b[3], b[2], b[1], b[0]),
        }
    }

    /// The bytes of a 16-bit value in this byte order.
    pub open spec fn encode16(self, v: u16) -> Seq<u8> {
        self.order(le16(v))
    }

    /// The bytes of a 32-bit value in this byte order.
    pub open spec fn encode32(self, v: u32) -> Seq<u8> {
        self.order(le32(v))
    }

    /// The bytes of a 64-bit value in this byte order.
    pub open spec fn encode64(self, v: u64) -> Seq<u8> {
        self.order(le64(v))
    }

    /// Parses the `EI_DATA` byte.
    pub fn from_byte(value: u8) -> (res: Result<Self>)
        ensures
            match endian_of_byte(value) {
                Some(e) => res == Ok::<Endian, Error>(e),
                None => res matches Err(e) && e.kind_spec() == ErrorKind::InvalidDataEncoding(value),
            },
    {
        match value {
            1 => Ok(Endian::Little),
            2 => Ok(Endian::Big),
            other => Err(Error::invalid_data_encoding(other)),
        }
    }

    /// Returns the `EI_DATA` byte for this encoding.
    pub fn to_byte(self) -> (res: u8)
        ensures
            res == self.byte_spec(),
    {
        match self {
            Endian::Little => 1,
            Endian::Big => 2,
        }
    }

    /// Decodes a `u16` in this byte order.
    pub fn u16(self, bytes: [u8; 2]) -> (res: u16)
        ensures
            res == self.decode16(bytes@),
    {
        match self {
            Endian::Little => (bytes[0] as u16) | ((bytes[1] as u16) << 8u16),
            Endian::Big => (bytes[1] as u16) | ((bytes[0] as u16) << 8u16),
        }
    }

    /// Decodes a `u32` in this byte order.
    pub fn u32(self, bytes: [u8; 4]) -> (res: u32)
        ensures
            res == self.decode32(bytes@),
    {
        match self {
            Endian::Little => (bytes[0] as u32) | ((bytes[1] as u32) << 8u32) | ((bytes[2] as u32)
                << 16u32) | ((bytes[3] as u32) << 24u32),
            Endian::Big => (bytes[3] as u32) | ((bytes[2] as u32) << 8u32) | ((bytes[1] as u32)
                << 16u32) | ((bytes[0] as u32) << 24u32),
        }
    }

    /// Decodes a `u64` in this byte order.
    pub fn u64(self, bytes: [u8; 8]) -> (res: u64)
        ensures
            res == self.decode64(bytes@),
    {
        match self {
            Endian::Little => (bytes[0] as u64) | ((bytes[1] as u64) << 8u64) | ((bytes[2] as u64)
                << 16u64) | ((bytes[3] as u64) << 24u64) | ((bytes[4] as u64) << 32u64) | ((
            bytes[5] as u64) << 40u64) | ((bytes[6] as u64) << 48u64) | ((bytes[7] as u64)
                << 56u64),
            Endian::Big => (bytes[7] as u64) | ((bytes[6] as u64) << 8u64) | ((bytes[5] as u64)
                << 16u64) | ((bytes[4] as u64) << 24u64) | ((bytes[3] as u64) << 32u64) | ((
            bytes[2] as u64) << 40u64) | ((bytes[1] as u64) << 48u64) | ((bytes[0] as u64)
                << 56u64),
        }
    }

    /// Decodes an `i32` in this byte order.
    pub fn i32(self, bytes: [u8; 4]) -> (res: i32)
        ensures
            res == self.decode32(bytes@) as i32,
    {
        self.u32(bytes) as i32
    }

    /// Decodes an `i64` in this byte order.
    pub fn i64(self, bytes: [u8; 8]) -> (res: i64)
        ensures
            res == self.decode64(bytes@) as i64,
    {
        self.u64(bytes) as i64
    }

    /// Encodes a `u16` in this byte order.
    pub fn u16_bytes(self, value: u16) -> (res: [u8; 2])
        ensures
            res@ == self.encode16(value),
    {
        let lo = (value & 0xff) as u8;
        let hi = ((value >> 8u16) & 0xff) as u8;
        let res = match self {
            Endian::Little => [lo, hi],
            Endian::Big => [hi, lo],
        };
        assert(res@ =~= self.encode16(value));
        res
    }

    /// Encodes a `u32` in this byte order.
    pub fn u32_bytes(self, value: u32) -> (res: [u8; 4])
        ensures
            res@ == self.encode32(value),
    {
        let b0 = (value & 0xff) as u8;
        let b1 = ((value >> 8u32) & 0xff) as u8;
        let b2 = ((value >> 16u32) & 0xff) as u8;
        let b3 = ((value >> 24u32) & 0xff) as u8;
        assert(b0 == low_byte(value as u64) && b1 == low_byte((value >> 8u32) as u64) && b2
            == low_byte((value >> 16u32) as u64) && b3 == low_byte((value >> 24u32) as u64))
            by (bit_vector)
            requires
                b0 == (value & 0xff) as u8,
                b1 == ((value >> 8u32) & 0xff) as u8,
                b2 == ((value >> 16u32) & 0xff) as u8,
                b3 == ((value >> 24u32) & 0xff) as u8,
        ;
        let res = match self {
            Endian::Little => [b0, b1, b2, b3],
            Endian::Big => [b3, b2, b1, b0],
        };
        assert(res@ =~= self.encode32(value));
        res
    }

    /// Encodes a `u64` in this byte order.
    pub fn u64_bytes(self, value: u64) -> (res: [u8; 8])
        ensures
            res@ == self.encode64(value),
    {
        let b0 = (value & 0xff) as u8;
        let b1 = ((value >> 8u64) & 0xff) as u8;
        let b2 = ((value >> 16u64) & 0xff) as u8;
        let b3 = ((value >> 24u64) & 0xff) as u8;
        let b4 = ((value >> 32u64) & 0xff) as u8;
        let b5 = ((value >> 40u64) & 0xff) as u8;
        let b6 = ((value >> 48u64) & 0xff) as u8;
        let b7 = ((value >> 56u64) & 0xff) as u8;
        let res = match self {
            Endian::Little => [b0, b1, b2, b3, b4, b5, b6, b7],
            Endian::Big => [b7, b6, b5, b4, b3, b2, b1, b0],
        };
        assert(res@ =~= self.encode64(value));
        res
    }

    /// Encodes an `i64` in this byte order.
    pub fn i64_bytes(self, value: i64) -> (res: [u8; 8])
        ensures
            res@ == self.encode64(value as u64),
    {
        self.u64_bytes(value as u64)
    }
}

/// Decoding the encoding of a 16-bit value gives the value back, in either byte order.
pub proof fn lemma_decode16_encode16(e: Endian, v: u16)
    ensures
        e.encode16(v).len() == 2,
        e.decode16(e.encode16(v)) == v,
{
    let b0 = low_byte(v as u64);
    let b1 = low_byte((v >> 8u16) as u64);
    assert(pack16(b0, b1) == v) by (bit_vector)
        requires
            b0 == ((v as u64) & 0xffu64) as u8,
            b1 == (((v >> 8u16) as u64) & 0xffu64) as u8,
    ;
    assert(e.encode16(v) =~= e.order(seq![b0, b1]));
    if e == Endian::Big {
        assert(seq![b0, b1].reverse() =~= seq![b1, b0]);
    }
}

/// Decoding the encoding of a 32-bit value gives the value back, in either byte order.
pub proof fn lemma_decode32_encode32(e: Endian, v: u32)
    ensures
        e.encode32(v).len() == 4,
        e.decode32(e.encode32(v)) == v,
{
    let b0 = low_byte(v as u64);
    let b1 = low_byte((v >> 8u32) as u64);
    let b2 = low_byte((v >> 16u32) as u64);
    let b3 = low_byte((v >> 24u32) as u64);
    assert(pack32(b0, b1, b2, b3) == v) by (bit_vector)
        requires
            b0 == ((v as u64) & 0xffu64) as u8,
            b1 == (((v >> 8u32) as u64) & 0xffu64) as u8,
            b2 == (((v >> 16u32) as u64) & 0xffu64) as u8,
            b3 == (((v >> 24u32) as u64) & 0xffu64) as u8,
    ;
    if e == Endian::Big {
        assert(seq![b0, b1, b2, b3].reverse() =~= seq![b3, b2, b1, b0]);
    }
}

/// Decoding the encoding of a 64-bit value gives the value back, in either byte order.
pub proof fn lemma_decode64_encode64(e: Endian, v: u64)
    ensures
        e.encode64(v).len() == 8,
        e.decode64(e.encode64(v)) == v,
{
    let b0 = low_byte(v);
    let b1 = low_byte(v >> 8u64);
    let b2 = low_byte(v >> 16u64);
    let b3 = low_byte(v >> 24u64);
    let b4 = low_byte(v >> 32u64);
    let b5 = low_byte(v >> 40u64);
    let b6 = low_byte(v >> 48u64);
    let b7 = low_byte(v >> 56u64);
    assert(pack64(b0, b1, b2, b3, b4, b5, b6, b7) == v) by (bit_vector)
        requires
            b0 == (v & 0xffu64) as u8,
            b1 == ((v >> 8u64) & 0xffu64) as u8,
            b2 == ((v >> 16u64) & 0xffu64) as u8,
            b3 == ((v >> 24u64) & 0xffu64) as u8,
            b4 == ((v >> 32u64) & 0xffu64) as u8,
            b5 == ((v >> 40u64) & 0xffu64) as u8,
            b6 == ((v >> 48u64) & 0xffu64) as u8,
            b7 == ((v >> 56u64) & 0xffu64) as u8,
    ;
    if e == Endian::Big {
        assert(seq![b0, b1, b2, b3, b4, b5, b6, b7].reverse() =~= seq![
            b7,
            b6,
            b5,
            b4,
            b3,
            b2,
            b1,
            b0,
        ]);
    }
}

/// The operating-system application binary interface named in the identity.
#[derive(Debug, Clone, Copy, PartialEq, Eq, Hash, Structural)]
pub struct OsAbi(pub u8);

impl OsAbi {
    /// The raw `EI_OSABI` value of the UNIX System V ABI.
    pub const SYSV: u8 = 0;
    /// HP-UX ABI.
    pub const HPUX: u8 = 1;
    /// NetBSD ABI.
    pub const NETBSD: u8 = 2;
    /// GNU or Linux ABI.
    pub const GNU: u8 = 3;
    /// Sun Solaris ABI.
    pub const SOLARIS: u8 = 6;
    /// FreeBSD ABI.
    pub const FREEBSD: u8 = 9;

    /// Returns the raw `EI_OSABI` byte.
    pub fn value(self) -> (res: u8)
        ensures
            res == self.0,
    {
        self.0
    }
}

/// The parsed ELF identification array.
#[derive(Debug, Clone, Copy, PartialEq, Eq, Hash, Structural)]
pub struct ElfIdent {
    /// The address width class.
    pub class: ElfClass,
    /// The byte order.
    pub data: Endian,
    /// The ELF header version, normally `1`.
    pub version: u8,
    /// The operating-system ABI.
    pub os_abi: OsAbi,
    /// The ABI version.
    pub abi_version: u8,
}

/// Whether the first four bytes are the ELF magic number `\x7fELF`.
pub open spec fn has_elf_magic(b: Seq<u8>) -> bool {
    b.len() >= 4 && b[0] == 0x7f && b[1] == 0x45 && b[2] == 0x4c && b[3] == 0x46
}

/// The identification that sixteen bytes hold, when they hold a valid one.
pub open spec fn ident_of_bytes(b: Seq<u8>) -> Option<ElfIdent> {
    if !has_elf_magic(b) || b.len() < 9 {
        None
    } else {
        match (class_of_byte(b[4]), endian_of_byte(b[5])) {
            (Some(class), Some(data)) => Some(
                ElfIdent { class, data, version: b[6], os_abi: OsAbi(b[7]), abi_version: b[8] },
            ),
            _ => None,
        }
    }
}

impl ElfIdent {
    /// The sixteen serialized identification bytes.
    pub open spec fn bytes_spec(self) -> Seq<u8> {
        seq![
            0x7fu8, 0x45u8, 0x4cu8, 0x46u8,
            self.class.byte_spec(), self.data.byte_spec(), self.version, self.os_abi.0, self.abi_version,
            0u8, 0u8, 0u8, 0u8, 0u8, 0u8, 0u8,
        ]
    }

    /// Parses the sixteen-byte identification array.
    pub fn parse(bytes: &[u8; 16]) -> (res: Result<Self>)
        ensures
            match ident_of_bytes(bytes@) {
                Some(id) => res == Ok::<ElfIdent, Error>(id),
                None => res is Err,
            },
            res matches Err(e) ==> {
                if !has_elf_magic(bytes@) {
                    e.kind_spec() == ErrorKind::InvalidMagic
                } else if class_of_byte(bytes@[4]) is None {
                    e.kind_spec() == ErrorKind::InvalidClass(bytes@[4])
                } else {
                    e.kind_spec() == ErrorKind::InvalidDataEncoding(bytes@[5])
                }
            },
    {
        if bytes[0] != 0x7f || bytes[1] != 0x45 || bytes[2] != 0x4c || bytes[3] != 0x46 {
            return Err(Error::invalid_magic());
        }
        let class = match ElfClass::from_byte(bytes[4]) {
            Ok(c) => c,
            Err(e) => return Err(e),
        };
        let data = match Endian::from_byte(bytes[5]) {
            Ok(d) => d,
            Err(e) => return Err(e),
        };
        Ok(ElfIdent {
            class,
            data,
            version: bytes[6],
            os_abi: OsAbi(bytes[7]),
            abi_version: bytes[8],
        })
    }

    /// Serializes the identification array.
    pub fn to_bytes(&self) -> (res: [u8; 16])
        ensures
            res@ == self.bytes_spec(),
    {
        let res = [
            0x7fu8,
            0x45u8,
            0x4cu8,
            0x46u8,
            self.class.to_byte(),
            self.data.to_byte(),
            self.version,
            self.os_abi.0,
            self.abi_version,
            0u8,
            0u8,
            0u8,
            0u8,
            0u8,
            0u8,
            0u8,
        ];
        assert(res@ =~= self.bytes_spec());
        res
    }
}

/// Parsing the serialized identification gives the identification back.
pub proof fn lemma_ident_round_trip(id: ElfIdent)
    ensures
        id.bytes_spec().len() == 16,
        ident_of_bytes(id.bytes_spec()) == Some(id),
{
}

/// Parsing an `EI_CLASS` byte inverts serializing the class.
pub proof fn lemma_class_byte_round_trip(c: ElfClass)
    ensures
        class_of_byte(c.byte_spec()) == Some(c),
{
}

/// Parsing an `EI_DATA` byte inverts serializing the byte order.
pub proof fn lemma_endian_byte_round_trip(e: Endian)
    ensures
        endian_of_byte(e.byte_spec()) == Some(e),
{
}

/// The identification array starts with the magic bytes `0x7f 'E' 'L' 'F'`,
/// then holds `EI_CLASS` (1 for 32-bit, 2 for 64-bit objects), `EI_DATA`
/// (1 for little-endian, 2 for big-endian), `EI_VERSION`, `EI_OSABI` and
/// `EI_ABIVERSION` at bytes 4 to 8. Bytes with another magic, class or data
/// byte hold no identification; others hold exactly these fields.
pub proof fn lemma_ident_layout(b: Seq<u8>)
    requires
        b.len() == 16,
    ensures
        ident_of_bytes(b) is Some <==> (b[0] == 0x7f && b[1] == 0x45 && b[2] == 0x4c && b[3]
            == 0x46 && (b[4] == 1 || b[4] == 2) && (b[5] == 1 || b[5] == 2)),
        ident_of_bytes(b) matches Some(id) ==> id == (ElfIdent {
            class: if b[4] == 1 {
                ElfClass::Elf32
            } else {
                ElfClass::Elf64
            },
            data: if b[5] == 1 {
                Endian::Little
            } else {
                Endian::Big
            },
            version: b[6],
            os_abi: OsAbi(b[7]),
            abi_version: b[8],
        }),
{
}

/// In little-endian order the first byte is the least significant one, in
/// big-endian order the most significant one: two, four and eight bytes
/// stand for the sum of each byte times 256 to the power of its rank.
pub proof fn lemma_byte_order_values(b0: u8, b1: u8, b2: u8, b3: u8, b4: u8, b5: u8, b6: u8, b7: u8)
    ensures
        Endian::Little.decode16(seq![b0, b1]) == b0 + 0x100 * b1,
        Endian::Big.decode16(seq![b0, b1]) == 0x100 * b0 + b1,
        Endian::Little.decode32(seq![b0, b1, b2, b3]) == b0 + 0x100 * b1 + 0x1_0000 * b2
            + 0x100_0000 * b3,
        Endian::Big.decode32(seq![b0, b1, b2, b3]) == 0x100_0000 * b0 + 0x1_0000 * b1 + 0x100 * b2
            + b3,
        Endian::Little.decode64(seq![b0, b1, b2, b3, b4, b5, b6, b7]) == b0 + 0x100 * b1 + 0x1_0000
            * b2 + 0x100_0000 * b3 + 0x1_0000_0000 * b4 + 0x100_0000_0000 * b5 + 0x1_0000_0000_0000
            * b6 + 0x100_0000_0000_0000 * b7,
        Endian::Big.decode64(seq![b0, b1, b2, b3, b4, b5, b6, b7]) == 0x100_0000_0000_0000 * b0
            + 0x1_0000_0000_0000 * b1 + 0x100_0000_0000 * b2 + 0x1_0000_0000 * b3 + 0x100_0000 * b4
            + 0x1_0000 * b5 + 0x100 * b6 + b7,
{
    assert(pack16(b0, b1) == b0 + 0x100 * b1) by (bit_vector);
    assert(pack16(b1, b0) == 0x100 * b0 + b1) by (bit_vector);
    assert(pack32(b0, b1, b2, b3) == b0 + 0x100 * b1 + 0x1_0000 * b2 + 0x100_0000 * b3)
        by (bit_vector);
    assert(pack32(b3, b2, b1, b0) == 0x100_0000 * b0 + 0x1_0000 * b1 + 0x100 * b2 + b3)
        by (bit_vector);
    assert(pack64(b0, b1, b2, b3, b4, b5, b6, b7) == b0 + 0x100 * b1 + 0x1_0000 * b2 + 0x100_0000
        * b3 + 0x1_0000_0000 * b4 + 0x100_0000_0000 * b5 + 0x1_0000_0000_0000 * b6
        + 0x100_0000_0000_0000 * b7) by (bit_vector);
    assert(pack64(b7, b6, b5, b4, b3, b2, b1, b0) == 0x100_0000_0000_0000 * b0 + 0x1_0000_0000_0000
        * b1 + 0x100_0000_0000 * b2 + 0x1_0000_0000 * b3 + 0x100_0000 * b4 + 0x1_0000 * b5 + 0x100
        * b6 + b7) by (bit_vector);
}

} // verus!

//! ELF relocation tables and dynamic relocation classification.
//!
//! Relocations live in `SHT_REL` or `SHT_RELA` sections. [`RelocationSection`]
//! decodes either form. [`relocation_kind`] and [`relocation_width`] classify
//! the common x86 dynamic relocation types.

use vstd::prelude::*;

use crate::error::{Error, ErrorKind, Result};
use crate::header::Machine;
use crate::ident::{ElfClass, Endian};
use crate::parse_utils::{array4, array8};
use crate::reader::{field32, field64, window};

verus! {

/// One parsed relocation entry.
#[derive(Debug, Clone, Copy, PartialEq, Eq, Hash, Structural)]
pub struct RelocationEntry {
    /// The virtual address of the storage to relocate.
    pub offset: u64,
    /// The relocation's symbol index, zero when unused.
    pub symbol: u32,
    /// The processor-specific relocation type.
    pub r_type: u32,
    /// The explicit addend, present only in `RELA` forms.
    pub addend: Option<i64>,
}

impl RelocationEntry {
    /// Returns the virtual address of the relocated storage.
    pub fn offset(&self) -> (res: u64)
        ensures
            res == self.offset,
    {
        self.offset
    }

    /// Returns the relocation's symbol index.
    pub fn symbol(&self) -> (res: u32)
        ensures
            res == self.symbol,
    {
        self.symbol
    }

    /// Returns the raw relocation type.
    pub fn r_type(&self) -> (res: u32)
        ensures
            res == self.r_type,
    {
        self.r_type
    }

    /// Returns the explicit addend for `RELA` forms.
    pub fn addend(&self) -> (res: Option<i64>)
        ensures
            res == self.addend,
    {
        self.addend
    }
}

/// The size of one relocation entry for `class` and form.
pub open spec fn reloc_entry_size(class: ElfClass, is_rela: bool) -> int {
    match (class, is_rela) {
        (ElfClass::Elf64, false) => 16,
        (ElfClass::Elf64, true) => 24,
        (ElfClass::Elf32, false) => 8,
        (ElfClass::Elf32, true) => 12,
    }
}

/// The symbol index packed into an `r_info` value.
pub open spec fn info_symbol(class: ElfClass, info: u64) -> u32 {
    match class {
        ElfClass::Elf64 => (info >> 32u64) as u32,
        ElfClass::Elf32 => (info >> 8u64) as u32,
    }
}

/// The relocation type packed into an `r_info` value.
pub open spec fn info_type(class: ElfClass, info: u64) -> u32 {
    match class {
        ElfClass::Elf64 => (info & 0xffff_ffffu64) as u32,
        ElfClass::Elf32 => (info & 0xffu64) as u32,
    }
}

/// The relocation entry that `data` holds at `off`.
pub open spec fn reloc_at(data: Seq<u8>, off: int, is_rela: bool, e: Endian, class: ElfClass) -> RelocationEntry {
    let (offset, info) = match class {
        ElfClass::Elf64 => (field64(data, e, off), field64(data, e, off + 8)),
        ElfClass::Elf32 => (field32(data, e, off) as u64, field32(data, e, off + 4) as u64),
    };
    RelocationEntry {
        offset,
        symbol: info_symbol(class, info),
        r_type: info_type(class, info),
        addend: if is_rela {
            Some(
                match class {
                    ElfClass::Elf64 => field64(data, e, off + 16) as i64,
                    ElfClass::Elf32 => field32(data, e, off + 8) as i32 as i64,
                },
            )
        } else {
            None
        },
    }
}

/// The entries that a whole-entry relocation table `data` holds.
pub open spec fn relocs_of(data: Seq<u8>, is_rela: bool, e: Endian, class: ElfClass) -> Seq<RelocationEntry> {
    let n = reloc_entry_size(class, is_rela);
    Seq::new(((data.len() as int) / n) as nat, |i: int| reloc_at(data, i * n, is_rela, e, class))
}

/// One parsed `SHT_REL` or `SHT_RELA` section.
#[derive(Debug, Clone, PartialEq, Eq)]
pub struct RelocationSection {
    /// The relocation entries in table order.
    pub entries: Vec<RelocationEntry>,
    /// Whether the table uses the `RELA` form with explicit addends.
    pub is_rela: bool,
}

impl Default for RelocationSection {
    fn default() -> (res: Self)
        ensures
            res.entries@ == Seq::<RelocationEntry>::empty(),
            !res.is_rela,
    {
        RelocationSection { entries: Vec::new(), is_rela: false }
    }
}

fn split_symbol(class: ElfClass, info: u64) -> (res: u32)
    ensures
        res == info_symbol(class, info),
{
    match class {
        ElfClass::Elf64 => crate::low32(info >> 32u64),
        ElfClass::Elf32 => crate::low32(info >> 8u64),
    }
}

fn split_type(class: ElfClass, info: u64) -> (res: u32)
    ensures
        res == info_type(class, info),
{
    match class {
        ElfClass::Elf64 => crate::low32(info & 0xffff_ffffu64),
        ElfClass::Elf32 => crate::low32(info & 0xffu64),
    }
}

impl RelocationSection {
    /// Parses a relocation table from its section bytes.
    ///
    /// Returns an error when the table is not a whole number of entries.
    pub fn parse(data: &[u8], is_rela: bool, endian: Endian, class: ElfClass) -> (res: Result<Self>)
        ensures
            (data@.len() as int) % reloc_entry_size(class, is_rela) == 0 ==> (res matches Ok(t)
                && t.entries@ == relocs_of(data@, is_rela, endian, class) && t.is_rela == is_rela),
            (data@.len() as int) % reloc_entry_size(class, is_rela) != 0 ==> (res matches Err(e)
                && e.kind_spec() matches ErrorKind::InvalidSection(m) && m@ == "relocation table is not a whole number of entries"@),
    {
        let entry_size: usize = match class {
            ElfClass::Elf64 => if is_rela {
                24
            } else {
                16
            },
            ElfClass::Elf32 => if is_rela {
                12
            } else {
                8
            },
        };
        if data.len() % entry_size != 0 {
            return Err(Error::invalid_section("relocation table is not a whole number of entries"));
        }
        let count = data.len() / entry_size;
        let mut entries: Vec<RelocationEntry> = Vec::with_capacity(count);
        let mut index: usize = 0;
        while index < count
            invariant
                index <= count,
                count == (data@.len() as int) / (entry_size as int),
                entry_size == reloc_entry_size(class, is_rela),
                entries@.len() == index,
                forall|i: int|
                    0 <= i < index ==> #[trigger] entries@[i] == reloc_at(
                        data@,
                        i * entry_size,
                        is_rela,
                        endian,
                        class,
                    ),
            decreases count - index,
        {
            proof {
                crate::parse_utils::lemma_entry_in_table(
                    data@.len() as int,
                    entry_size as int,
                    index as int,
                );
                assert(data@.len() == data.len());
            }
            let base = index * entry_size;
            let offset;
            let info;
            match class {
                ElfClass::Elf64 => {
                    offset = endian.u64(array8(data, base).unwrap());
                    info = endian.u64(array8(data, base + 8).unwrap());
                },
                ElfClass::Elf32 => {
                    offset = endian.u32(array4(data, base).unwrap()) as u64;
                    info = endian.u32(array4(data, base + 4).unwrap()) as u64;
                },
            }
            let addend = if is_rela {
                Some(
                    match class {
                        ElfClass::Elf64 => endian.i64(array8(data, base + 16).unwrap()),
                        ElfClass::Elf32 => endian.i32(array4(data, base + 8).unwrap()) as i64,
                    },
                )
            } else {
                None
            };
            entries.push(
                RelocationEntry {
                    offset,
                    symbol: split_symbol(class, info),
                    r_type: split_type(class, info),
                    addend,
                },
            );
            index = index + 1;
        }
        let res = RelocationSection { entries, is_rela };
        assert(res.entries@ =~= relocs_of(data@, is_rela, endian, class));
        Ok(res)
    }

    /// Returns the relocation entries in table order.
    pub fn entries(&self) -> (res: &[RelocationEntry])
        ensures
            res@ == self.entries@,
    {
        self.entries.as_slice()
    }

    /// Tests whether the table uses the `RELA` form.
    pub fn is_rela(&self) -> (res: bool)
        ensures
            res == self.is_rela,
    {
        self.is_rela
    }
}

/// The common purpose of one relocation.
#[derive(Debug, Clone, Copy, PartialEq, Eq, Hash, Structural)]
pub enum RelocKind {
    /// Adds the load-bias change to a stored pointer.
    Relative,
    /// Resolves a global symbol address into data storage.
    GlobalData,
    /// Resolves a global symbol address into a PLT slot.
    JumpSlot,
    /// Stores an absolute address.
    Absolute,
    /// Copies a dynamic symbol's initial bytes.
    Copy,
    /// Accesses thread-local storage.
    Tls,
    /// Has no common interpretation.
    Other,
}

/// The purpose of relocation type `r_type` on `machine`.
pub open spec fn reloc_kind_spec(machine: u16, r_type: u32) -> RelocKind {
    if machine == 62 {
        if r_type == 8 {
            RelocKind::Relative
        } else if r_type == 6 {
            RelocKind::GlobalData
        } else if r_type == 7 {
            RelocKind::JumpSlot
        } else if r_type == 1 {
            RelocKind::Absolute
        } else if r_type == 5 {
            RelocKind::Copy
        } else if 16 <= r_type <= 18 {
            RelocKind::Tls
        } else {
            RelocKind::Other
        }
    } else if machine == 3 {
        if r_type == 8 {
            RelocKind::Relative
        } else if r_type == 6 {
            RelocKind::GlobalData
        } else if r_type == 7 {
            RelocKind::JumpSlot
        } else if r_type == 1 {
            RelocKind::Absolute
        } else if r_type == 5 {
            RelocKind::Copy
        } else if r_type == 14 || r_type == 15 || r_type == 35 || r_type == 36 || r_type == 37 {
            RelocKind::Tls
        } else {
            RelocKind::Other
        }
    } else {
        RelocKind::Other
    }
}

/// The storage width in bytes of relocation type `r_type` on `machine`.
pub open spec fn reloc_width_spec(machine: u16, r_type: u32) -> Option<u8> {
    if machine == 62 {
        if r_type == 8 || r_type == 6 || r_type == 7 || r_type == 1 || r_type == 5 || r_type == 16
            || r_type == 17 || r_type == 18 {
            Some(8)
        } else if r_type == 2 || r_type == 10 || r_type == 11 {
            Some(4)
        } else {
            None
        }
    } else if machine == 3 {
        if r_type == 8 || r_type == 6 || r_type == 7 || r_type == 1 || r_type == 5 {
            Some(4)
        } else {
            None
        }
    } else {
        None
    }
}

/// Classifies a dynamic relocation type for `machine`.
///
/// The match recognizes the x86-64 and i386 dynamic relocation types. Other
/// machines fall back to [`RelocKind::Other`].
pub fn relocation_kind(machine: Machine, r_type: u32) -> (res: RelocKind)
    ensures
        res == reloc_kind_spec(machine.0, r_type),
{
    match machine.value() {
        62 => match r_type {
            8 => RelocKind::Relative,
            6 => RelocKind::GlobalData,
            7 => RelocKind::JumpSlot,
            1 => RelocKind::Absolute,
            5 => RelocKind::Copy,
            16..=18 => RelocKind::Tls,
            _ => RelocKind::Other,
        },
        3 => match r_type {
            8 => RelocKind::Relative,
            6 => RelocKind::GlobalData,
            7 => RelocKind::JumpSlot,
            1 => RelocKind::Absolute,
            5 => RelocKind::Copy,
            14 | 15 | 35 | 36 | 37 => RelocKind::Tls,
            _ => RelocKind::Other,
        },
        _ => RelocKind::Other,
    }
}

/// Returns the storage width in bytes of a dynamic relocation type.
///
/// Returns `None` when the width depends on machine-specific semantics.
pub fn relocation_width(machine: Machine, r_type: u32) -> (res: Option<u8>)
    ensures
        res == reloc_width_spec(machine.0, r_type),
{
    match machine.value() {
        62 => match r_type {
            8 | 6 | 7 | 1 | 5 | 16 | 17 | 18 => Some(8),
            2 | 10 | 11 => Some(4),
            _ => None,
        },
        3 => match r_type {
            8 | 6 | 7 | 1 | 5 => Some(4),
            _ => None,
        },
        _ => None,
    }
}

/// Every relative relocation has a known pointer width: eight bytes on
/// x86-64 and four on i386.
pub proof fn lemma_relative_relocations_have_pointer_width(machine: u16, r_type: u32)
    requires
        reloc_kind_spec(machine, r_type) == RelocKind::Relative,
    ensures
        machine == 62 ==> reloc_width_spec(machine, r_type) == Some(8u8),
        machine == 3 ==> reloc_width_spec(machine, r_type) == Some(4u8),
        machine == 62 || machine == 3,
{
}

/// On x86-64 (`EM_X86_64`, 62) and i386 (`EM_386`, 3) the psABIs number the
/// word-sized dynamic relocations alike: `R_*_RELATIVE` is 8, `R_*_GLOB_DAT`
/// 6, `R_*_JUMP_SLOT` 7, the absolute word relocation (`R_X86_64_64`,
/// `R_386_32`) 1 and `R_*_COPY` 5. Exactly these types get those kinds, and
/// each stores one pointer: eight bytes on x86-64, four on i386.
pub proof fn lemma_word_relocation_kinds(machine: u16, r_type: u32)
    requires
        machine == 62 || machine == 3,
    ensures
        reloc_kind_spec(machine, r_type) == RelocKind::Relative <==> r_type == 8,
        reloc_kind_spec(machine, r_type) == RelocKind::GlobalData <==> r_type == 6,
        reloc_kind_spec(machine, r_type) == RelocKind::JumpSlot <==> r_type == 7,
        reloc_kind_spec(machine, r_type) == RelocKind::Absolute <==> r_type == 1,
        reloc_kind_spec(machine, r_type) == RelocKind::Copy <==> r_type == 5,
        (r_type == 8 || r_type == 6 || r_type == 7 || r_type == 1 || r_type == 5)
            ==> reloc_width_spec(machine, r_type) == Some(if machine == 62 {
            8u8
        } else {
            4u8
        }),
{
}

/// An `Elf32_Rel` or `Elf32_Rela` entry read in place: `r_offset` is the
/// 32-bit word at bytes 0..4 of the `i`-th entry, `r_info` the word at bytes
/// 4..8, whose high 24 bits are the symbol index and low 8 bits the type, and
/// the `RELA` form's signed `r_addend` the word at bytes 8..12; the `REL` form
/// has no addend.
pub proof fn lemma_reloc_entry_layout32(
    data: Seq<u8>,
    e: Endian,
    is_rela: bool,
    i: int,
    offset: u32,
    info: u32,
    addend: u32,
)
    requires
        0 <= i,
        (i + 1) * reloc_entry_size(ElfClass::Elf32, is_rela) <= data.len(),
        data.subrange(
            i * reloc_entry_size(ElfClass::Elf32, is_rela),
            (i + 1) * reloc_entry_size(ElfClass::Elf32, is_rela),
        ) == e.encode32(offset) + e.encode32(info) + if is_rela {
            e.encode32(addend)
        } else {
            Seq::<u8>::empty()
        },
    ensures
        relocs_of(data, is_rela, e, ElfClass::Elf32).len() > i,
        relocs_of(data, is_rela, e, ElfClass::Elf32)[i] == (RelocationEntry {
            offset: offset as u64,
            symbol: info >> 8u32,
            r_type: info & 0xffu32,
            addend: if is_rela {
                Some(addend as i32 as i64)
            } else {
                None
            },
        }),
{
    let n = reloc_entry_size(ElfClass::Elf32, is_rela);
    let off = i * n;
    assert(i * n + n == (i + 1) * n) by (nonlinear_arith);
    let entry = data.subrange(off, (i + 1) * n);
    crate::ident::lemma_decode32_encode32(e, offset);
    crate::ident::lemma_decode32_encode32(e, info);
    crate::ident::lemma_decode32_encode32(e, addend);
    assert((data.len() as int) / n > i) by (nonlinear_arith)
        requires
            (i + 1) * n <= data.len(),
            0 <= i,
            n > 0,
    ;
    assert(window(data, off, 4) =~= e.encode32(offset)) by {
        assert forall|k: int| 0 <= k < 4 implies #[trigger] window(data, off, 4)[k] == entry[k] by {}
    }
    assert(window(data, off + 4, 4) =~= e.encode32(info)) by {
        assert forall|k: int| 0 <= k < 4 implies #[trigger] window(data, off + 4, 4)[k] == entry[4 + k] by {}
    }
    if is_rela {
        assert(window(data, off + 8, 4) =~= e.encode32(addend)) by {
            assert forall|k: int| 0 <= k < 4 implies #[trigger] window(data, off + 8, 4)[k] == entry[8 + k] by {}
        }
    }
    assert(((info as u64) >> 8u64) as u32 == info >> 8u32) by (bit_vector);
    assert(((info as u64) & 0xffu64) as u32 == info & 0xffu32) by (bit_vector);
}

/// An `Elf64_Rel` or `Elf64_Rela` entry read in place: `r_offset` is the
/// 64-bit word at bytes 0..8 of the `i`-th entry, `r_info` the word at bytes
/// 8..16, whose high 32 bits are the symbol index and low 32 bits the type,
/// and the `RELA` form's signed `r_addend` the word at bytes 16..24; the `REL`
/// form has no addend.
pub proof fn lemma_reloc_entry_layout64(
    data: Seq<u8>,
    e: Endian,
    is_rela: bool,
    i: int,
    offset: u64,
    info: u64,
    addend: u64,
)
    requires
        0 <= i,
        (i + 1) * reloc_entry_size(ElfClass::Elf64, is_rela) <= data.len(),
        data.subrange(
            i * reloc_entry_size(ElfClass::Elf64, is_rela),
            (i + 1) * reloc_entry_size(ElfClass::Elf64, is_rela),
        ) == e.encode64(offset) + e.encode64(info) + if is_rela {
            e.encode64(addend)
        } else {
            Seq::<u8>::empty()
        },
    ensures
        relocs_of(data, is_rela, e, ElfClass::Elf64).len() > i,
        relocs_of(data, is_rela, e, ElfClass::Elf64)[i] == (RelocationEntry {
            offset,
            symbol: (info >> 32u64) as u32,
            r_type: (info & 0xffff_ffffu64) as u32,
            addend: if is_rela {
                Some(addend as i64)
            } else {
                None
            },
        }),
{
    let n = reloc_entry_size(ElfClass::Elf64, is_rela);
    let off = i * n;
    assert(i * n + n == (i + 1) * n) by (nonlinear_arith);
    let entry = data.subrange(off, (i + 1) * n);
    crate::ident::lemma_decode64_encode64(e, offset);
    crate::ident::lemma_decode64_encode64(e, info);
    crate::ident::lemma_decode64_encode64(e, addend);
    assert((data.len() as int) / n > i) by (nonlinear_arith)
        requires
            (i + 1) * n <= data.len(),
            0 <= i,
            n > 0,
    ;
    assert(window(data, off, 8) =~= e.encode64(offset)) by {
        assert forall|k: int| 0 <= k < 8 implies #[trigger] window(data, off, 8)[k] == entry[k] by {}
    }
    assert(window(data, off + 8, 8) =~= e.encode64(info)) by {
        assert forall|k: int| 0 <= k < 8 implies #[trigger] window(data, off + 8, 8)[k] == entry[8 + k] by {}
    }
    if is_rela {
        assert(window(data, off + 16, 8) =~= e.encode64(addend)) by {
            assert forall|k: int| 0 <= k < 8 implies #[trigger] window(data, off + 16, 8)[k] == entry[16 + k] by {}
        }
    }
}

} // verus!

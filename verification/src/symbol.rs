//! ELF symbol tables.
//!
//! A symbol table pairs fixed-size entries with names from a string table.
//! [`SymbolTable::parse`] decodes the entries and resolves every name.

use vstd::prelude::*;

use crate::error::{Error, ErrorKind, Result};
use crate::ident::{ElfClass, Endian};
use crate::parse_utils::{array2, array4, array8};

use crate::reader::{field16, field32, field64, window};
use crate::strtab::{string_or_empty, StringTable};

verus! {

/// The symbol binding recorded in the high nibble of `st_info`.
#[derive(Debug, Clone, Copy, PartialEq, Eq, Hash, Structural)]
pub enum SymbolBind {
    /// Local symbol, invisible outside the object.
    Local,
    /// Global symbol, visible to all objects.
    Global,
    /// Weak symbol, overridable without a warning.
    Weak,
    /// Another uncommon binding.
    Other(u8),
}

/// The binding a raw value names.
pub open spec fn bind_of(value: u8) -> SymbolBind {
    if value == 0 {
        SymbolBind::Local
    } else if value == 1 {
        SymbolBind::Global
    } else if value == 2 {
        SymbolBind::Weak
    } else {
        SymbolBind::Other(value)
    }
}

impl SymbolBind {
    /// The raw value of a binding.
    pub open spec fn value_spec(self) -> u8 {
        match self {
            SymbolBind::Local => 0,
            SymbolBind::Global => 1,
            SymbolBind::Weak => 2,
            SymbolBind::Other(v) => v,
        }
    }

    /// Converts a raw binding value.
    pub fn from_u8(value: u8) -> (res: Self)
        ensures
            res == bind_of(value),
    {
        match value {
            0 => SymbolBind::Local,
            1 => SymbolBind::Global,
            2 => SymbolBind::Weak,
            other => SymbolBind::Other(other),
        }
    }

    /// Returns the raw binding value.
    pub fn to_u8(self) -> (res: u8)
        ensures
            res == self.value_spec(),
    {
        match self {
            SymbolBind::Local => 0,
            SymbolBind::Global => 1,
            SymbolBind::Weak => 2,
            SymbolBind::Other(value) => value,
        }
    }
}

/// The symbol type recorded in the low nibble of `st_info`.
#[derive(Debug, Clone, Copy, PartialEq, Eq, Hash, Structural)]
pub enum SymbolType {
    /// No type specified.
    NoType,
    /// A data object.
    Object,
    /// A function or executable code.
    Func,
    /// A section.
    Section,
    /// A source file name.
    File,
    /// A thread-local object.
    Tls,
    /// An indirect function.
    GnuIfunc,
    /// Another uncommon type.
    Other(u8),
}

/// The symbol type a raw value names.
pub open spec fn symbol_type_of(value: u8) -> SymbolType {
    if value == 0 {
        SymbolType::NoType
    } else if value == 1 {
        SymbolType::Object
    } else if value == 2 {
        SymbolType::Func
    } else if value == 3 {
        SymbolType::Section
    } else if value == 4 {
        SymbolType::File
    } else if value == 6 {
        SymbolType::Tls
    } else if value == 10 {
        SymbolType::GnuIfunc
    } else {
        SymbolType::Other(value)
    }
}

impl SymbolType {
    /// The raw value of a symbol type.
    pub open spec fn value_spec(self) -> u8 {
        match self {
            SymbolType::NoType => 0,
            SymbolType::Object => 1,
            SymbolType::Func => 2,
            SymbolType::Section => 3,
            SymbolType::File => 4,
            SymbolType::Tls => 6,
            SymbolType::GnuIfunc => 10,
            SymbolType::Other(v) => v,
        }
    }

    /// Converts a raw symbol type value.
    pub fn from_u8(value: u8) -> (res: Self)
        ensures
            res == symbol_type_of(value),
    {
        match value {
            0 => SymbolType::NoType,
            1 => SymbolType::Object,
            2 => SymbolType::Func,
            3 => SymbolType::Section,
            4 => SymbolType::File,
            6 => SymbolType::Tls,
            10 => SymbolType::GnuIfunc,
            other => SymbolType::Other(other),
        }
    }

    /// Returns the raw symbol type value.
    pub fn to_u8(self) -> (res: u8)
        ensures
            res == self.value_spec(),
    {
        match self {
            SymbolType::NoType => 0,
            SymbolType::Object => 1,
            SymbolType::Func => 2,
            SymbolType::Section => 3,
            SymbolType::File => 4,
            SymbolType::Tls => 6,
            SymbolType::GnuIfunc => 10,
            SymbolType::Other(value) => value,
        }
    }
}

/// The symbol visibility recorded in the low bits of `st_other`.
#[derive(Debug, Clone, Copy, PartialEq, Eq, Hash, Structural)]
pub enum SymbolVisibility {
    /// Default visibility rules apply.
    Default,
    /// Internal visibility, hidden from other objects.
    Internal,
    /// Not visible to other objects.
    Hidden,
    /// Visible to other objects, not preemptable.
    Protected,
}

/// The visibility the low two bits of a value name.
pub open spec fn visibility_of(value: u8) -> SymbolVisibility {
    let v = value & 3;
    if v == 0 {
        SymbolVisibility::Default
    } else if v == 1 {
        SymbolVisibility::Internal
    } else if v == 2 {
        SymbolVisibility::Hidden
    } else {
        SymbolVisibility::Protected
    }
}

impl SymbolVisibility {
    /// The raw value of a visibility.
    pub open spec fn value_spec(self) -> u8 {
        match self {
            SymbolVisibility::Default => 0,
            SymbolVisibility::Internal => 1,
            SymbolVisibility::Hidden => 2,
            SymbolVisibility::Protected => 3,
        }
    }

    /// Converts the low two bits of `st_other` to a visibility.
    pub fn from_u8(value: u8) -> (res: Self)
        ensures
            res == visibility_of(value),
    {
        match value & 0x03 {
            0 => SymbolVisibility::Default,
            1 => SymbolVisibility::Internal,
            2 => SymbolVisibility::Hidden,
            _ => SymbolVisibility::Protected,
        }
    }

    /// Returns the raw visibility value.
    pub fn to_u8(self) -> (res: u8)
        ensures
            res == self.value_spec(),
    {
        match self {
            SymbolVisibility::Default => 0,
            SymbolVisibility::Internal => 1,
            SymbolVisibility::Hidden => 2,
            SymbolVisibility::Protected => 3,
        }
    }
}

/// Converting a raw binding value and back gives the value.
pub proof fn lemma_bind_value_round_trip(value: u8)
    ensures
        bind_of(value).value_spec() == value,
{
}

/// Converting a raw symbol type value and back gives the value.
pub proof fn lemma_symbol_type_value_round_trip(value: u8)
    ensures
        symbol_type_of(value).value_spec() == value,
{
}

/// A visibility keeps only the low two bits of the value it came from.
pub proof fn lemma_visibility_value(value: u8)
    ensures
        visibility_of(value).value_spec() == value & 3,
        visibility_of(visibility_of(value).value_spec()) == visibility_of(value),
{
    assert(value & 3 < 4) by (bit_vector);
    let v = value & 3;
    assert(v & 3 == v) by (bit_vector)
        requires
            v < 4,
    ;
}

/// One parsed ELF symbol with its name resolved.
#[derive(Debug, Clone, PartialEq, Eq, Hash)]
pub struct Symbol {
    /// The symbol name, empty for unnamed symbols.
    pub name: String,
    /// The symbol value, normally an address.
    pub value: u64,
    /// The symbol size in bytes.
    pub size: u64,
    /// The symbol binding.
    pub bind: SymbolBind,
    /// The symbol type.
    pub sym_type: SymbolType,
    /// The symbol visibility.
    pub visibility: SymbolVisibility,
    /// The related section index, zero for undefined symbols.
    pub shndx: u16,
}

/// The model of one symbol: name, value, size, binding, type, visibility,
/// and section index.
pub type SymbolModel = (Seq<char>, u64, u64, SymbolBind, SymbolType, SymbolVisibility, u16);

impl View for Symbol {
    type V = SymbolModel;

    open spec fn view(&self) -> SymbolModel {
        (self.name@, self.value, self.size, self.bind, self.sym_type, self.visibility, self.shndx)
    }
}

/// The size of one symbol table entry for `class`.
pub open spec fn symbol_entry_size(class: ElfClass) -> int {
    match class {
        ElfClass::Elf64 => 24,
        ElfClass::Elf32 => 16,
    }
}

/// The symbol that `data` holds at `off`, named through `strtab`.
pub open spec fn symbol_at(data: Seq<u8>, off: int, strtab: Seq<u8>, e: Endian, class: ElfClass) -> SymbolModel {
    let (value, size, info, other, shndx) = match class {
        ElfClass::Elf64 => (
            field64(data, e, off + 8),
            field64(data, e, off + 16),
            data[off + 4],
            data[off + 5],
            field16(data, e, off + 6),
        ),
        ElfClass::Elf32 => (
            field32(data, e, off + 4) as u64,
            field32(data, e, off + 8) as u64,
            data[off + 12],
            data[off + 13],
            field16(data, e, off + 14),
        ),
    };
    (
        string_or_empty(strtab, field32(data, e, off) as int),
        value,
        size,
        bind_of(info >> 4),
        symbol_type_of(info & 0x0f),
        visibility_of(other & 0x03),
        shndx,
    )
}

/// The symbols that a whole-entry table `data` holds.
pub open spec fn symbols_of(data: Seq<u8>, strtab: Seq<u8>, e: Endian, class: ElfClass) -> Seq<SymbolModel> {
    let n = symbol_entry_size(class);
    Seq::new(((data.len() as int) / n) as nat, |i: int| symbol_at(data, i * n, strtab, e, class))
}

/// A parsed symbol table.
#[derive(Debug, Clone, PartialEq, Eq)]
pub struct SymbolTable {
    /// The symbols in table order.
    pub symbols: Vec<Symbol>,
}

impl View for SymbolTable {
    type V = Seq<SymbolModel>;

    open spec fn view(&self) -> Seq<SymbolModel> {
        self.symbols@.map_values(|s: Symbol| s@)
    }
}

impl Default for SymbolTable {
    fn default() -> (res: Self)
        ensures
            res@ == Seq::<SymbolModel>::empty(),
    {
        let res = SymbolTable { symbols: Vec::new() };
        assert(res@ =~= Seq::<SymbolModel>::empty());
        res
    }
}

impl SymbolTable {
    /// Parses a symbol table from its section or segment bytes.
    ///
    /// Returns an error when the table is not a whole number of entries.
    pub fn parse(data: &[u8], strtab: StringTable<'_>, endian: Endian, class: ElfClass) -> (res:
        Result<Self>)
        ensures
            (data@.len() as int) % symbol_entry_size(class) == 0 ==> (res matches Ok(t) && t@ == symbols_of(
                data@,
                strtab.bytes_spec(),
                endian,
                class,
            )),
            (data@.len() as int) % symbol_entry_size(class) != 0 ==> (res matches Err(e)
                && e.kind_spec() matches ErrorKind::InvalidSection(m) && m@ == "symbol table is not a whole number of entries"@),
    {
        let entry_size: usize = match class {
            ElfClass::Elf64 => 24,
            ElfClass::Elf32 => 16,
        };
        if data.len() % entry_size != 0 {
            return Err(Error::invalid_section("symbol table is not a whole number of entries"));
        }
        let count = data.len() / entry_size;
        let ghost strings = strtab.bytes_spec();
        let mut symbols: Vec<Symbol> = Vec::with_capacity(count);
        let mut index: usize = 0;
        while index < count
            invariant
                index <= count,
                count == (data@.len() as int) / (entry_size as int),
                entry_size == symbol_entry_size(class),
                (data@.len() as int) % (entry_size as int) == 0,
                strings == strtab.bytes_spec(),
                symbols@.len() == index,
                forall|i: int|
                    0 <= i < index ==> (#[trigger] symbols@[i])@ == symbol_at(
                        data@,
                        i * entry_size,
                        strings,
                        endian,
                        class,
                    ),
            decreases count - index,
        {
            proof {
                crate::parse_utils::lemma_entry_in_table(
                    data@.len() as int,
                    entry_size as int,
                    index as int,
                );
                assert(data@.len() == data.len());
                assert(index as int * entry_size as int + entry_size as int <= data@.len());
            }
            let base = index * entry_size;
            let name_index = endian.u32(array4(data, base).unwrap());
            let value;
            let size;
            let info;
            let other;
            let shndx;
            match class {
                ElfClass::Elf64 => {
                    value = endian.u64(array8(data, base + 8).unwrap());
                    size = endian.u64(array8(data, base + 16).unwrap());
                    info = data[base + 4];
                    other = data[base + 5];
                    shndx = endian.u16(array2(data, base + 6).unwrap());
                },
                ElfClass::Elf32 => {
                    value = endian.u32(array4(data, base + 4).unwrap()) as u64;
                    size = endian.u32(array4(data, base + 8).unwrap()) as u64;
                    info = data[base + 12];
                    other = data[base + 13];
                    shndx = endian.u16(array2(data, base + 14).unwrap());
                },
            }
            let name = match strtab.get(name_index as usize) {
                Some(s) => s.to_owned(),
                None => String::new(),
            };
            symbols.push(
                Symbol {
                    name,
                    value,
                    size,
                    bind: SymbolBind::from_u8(info >> 4),
                    sym_type: SymbolType::from_u8(info & 0x0f),
                    visibility: SymbolVisibility::from_u8(other & 0x03),
                    shndx,
                },
            );
            index = index + 1;
        }
        let res = SymbolTable { symbols };
        assert(res@ =~= symbols_of(data@, strings, endian, class));
        Ok(res)
    }

    /// Returns the symbols in table order.
    pub fn symbols(&self) -> (res: &[Symbol])
        ensures
            res@ == self.symbols@,
    {
        self.symbols.as_slice()
    }

    /// Returns the number of symbols.
    pub fn len(&self) -> (res: usize)
        ensures
            res == self@.len(),
    {
        self.symbols.len()
    }

    /// Tests whether the table holds no symbols.
    pub fn is_empty(&self) -> (res: bool)
        ensures
            res == (self@.len() == 0),
    {
        self.symbols.len() == 0
    }
}

/// The symbol of an ELF64 `Elf64_Sym` entry: `st_name` in bytes 0..4,
/// `st_info` at 4, `st_other` at 5, `st_shndx` in 6..8, `st_value` in 8..16
/// and `st_size` in 16..24. The `i`-th symbol of a table whose `i`-th entry
/// holds these fields has exactly them.
pub proof fn lemma_symbol_entry_layout64(
    data: Seq<u8>,
    strtab: Seq<u8>,
    e: Endian,
    i: int,
    name: u32,
    info: u8,
    other: u8,
    shndx: u16,
    value: u64,
    size: u64,
)
    requires
        0 <= i,
        (i + 1) * 24 <= data.len(),
        data.subrange(i * 24, i * 24 + 24) == e.encode32(name) + seq![info, other] + e.encode16(shndx)
            + e.encode64(value) + e.encode64(size),
    ensures
        symbols_of(data, strtab, e, ElfClass::Elf64).len() > i,
        symbols_of(data, strtab, e, ElfClass::Elf64)[i] == (
            string_or_empty(strtab, name as int),
            value,
            size,
            bind_of(info >> 4),
            symbol_type_of(info & 0x0f),
            visibility_of(other & 0x03),
            shndx,
        ),
{
    let off = i * 24;
    let entry = data.subrange(off, off + 24);
    crate::ident::lemma_decode32_encode32(e, name);
    crate::ident::lemma_decode16_encode16(e, shndx);
    crate::ident::lemma_decode64_encode64(e, value);
    crate::ident::lemma_decode64_encode64(e, size);
    assert(i * 24 + 24 <= data.len());
    assert((data.len() as int) / 24 > i) by (nonlinear_arith)
        requires
            (i + 1) * 24 <= data.len(),
            0 <= i,
    ;
    assert(window(data, off, 4) =~= e.encode32(name)) by {
        assert forall|k: int| 0 <= k < 4 implies #[trigger] window(data, off, 4)[k] == entry[k] by {}
    }
    assert(data[off + 4] == entry[4]);
    assert(data[off + 5] == entry[5]);
    assert(window(data, off + 6, 2) =~= e.encode16(shndx)) by {
        assert forall|k: int| 0 <= k < 2 implies #[trigger] window(data, off + 6, 2)[k] == entry[6 + k] by {}
    }
    assert(window(data, off + 8, 8) =~= e.encode64(value)) by {
        assert forall|k: int| 0 <= k < 8 implies #[trigger] window(data, off + 8, 8)[k] == entry[8 + k] by {}
    }
    assert(window(data, off + 16, 8) =~= e.encode64(size)) by {
        assert forall|k: int| 0 <= k < 8 implies #[trigger] window(data, off + 16, 8)[k] == entry[16 + k] by {}
    }
}

/// The symbol of an ELF32 `Elf32_Sym` entry: `st_name` in bytes 0..4,
/// `st_value` in 4..8, `st_size` in 8..12, `st_info` at 12, `st_other` at 13
/// and `st_shndx` in 14..16. The `i`-th symbol of a table whose `i`-th entry
/// holds these fields has exactly them.
pub proof fn lemma_symbol_entry_layout32(
    data: Seq<u8>,
    strtab: Seq<u8>,
    e: Endian,
    i: int,
    name: u32,
    value: u32,
    size: u32,
    info: u8,
    other: u8,
    shndx: u16,
)
    requires
        0 <= i,
        (i + 1) * 16 <= data.len(),
        data.subrange(i * 16, i * 16 + 16) == e.encode32(name) + e.encode32(value) + e.encode32(size)
            + seq![info, other] + e.encode16(shndx),
    ensures
        symbols_of(data, strtab, e, ElfClass::Elf32).len() > i,
        symbols_of(data, strtab, e, ElfClass::Elf32)[i] == (
            string_or_empty(strtab, name as int),
            value as u64,
            size as u64,
            bind_of(info >> 4),
            symbol_type_of(info & 0x0f),
            visibility_of(other & 0x03),
            shndx,
        ),
{
    let off = i * 16;
    let entry = data.subrange(off, off + 16);
    crate::ident::lemma_decode32_encode32(e, name);
    crate::ident::lemma_decode32_encode32(e, value);
    crate::ident::lemma_decode32_encode32(e, size);
    crate::ident::lemma_decode16_encode16(e, shndx);
    assert((data.len() as int) / 16 > i) by (nonlinear_arith)
        requires
            (i + 1) * 16 <= data.len(),
            0 <= i,
    ;
    assert(window(data, off, 4) =~= e.encode32(name)) by {
        assert forall|k: int| 0 <= k < 4 implies #[trigger] window(data, off, 4)[k] == entry[k] by {}
    }
    assert(window(data, off + 4, 4) =~= e.encode32(value)) by {
        assert forall|k: int| 0 <= k < 4 implies #[trigger] window(data, off + 4, 4)[k] == entry[4 + k] by {}
    }
    assert(window(data, off + 8, 4) =~= e.encode32(size)) by {
        assert forall|k: int| 0 <= k < 4 implies #[trigger] window(data, off + 8, 4)[k] == entry[8 + k] by {}
    }
    assert(data[off + 12] == entry[12]);
    assert(data[off + 13] == entry[13]);
    assert(window(data, off + 14, 2) =~= e.encode16(shndx)) by {
        assert forall|k: int| 0 <= k < 2 implies #[trigger] window(data, off + 14, 2)[k] == entry[14 + k] by {}
    }
}

/// The ELF numbering of symbol attributes: bindings `STB_LOCAL` 0,
/// `STB_GLOBAL` 1 and `STB_WEAK` 2; types `STT_NOTYPE` 0, `STT_OBJECT` 1,
/// `STT_FUNC` 2, `STT_SECTION` 3, `STT_FILE` 4, `STT_TLS` 6 and
/// `STT_GNU_IFUNC` 10; visibilities `STV_DEFAULT` 0, `STV_INTERNAL` 1,
/// `STV_HIDDEN` 2 and `STV_PROTECTED` 3 in the low two bits. Each named
/// value reads as its name and no other value does.
pub proof fn lemma_symbol_numbering(v: u8)
    ensures
        bind_of(v) == SymbolBind::Local <==> v == 0,
        bind_of(v) == SymbolBind::Global <==> v == 1,
        bind_of(v) == SymbolBind::Weak <==> v == 2,
        symbol_type_of(v) == SymbolType::NoType <==> v == 0,
        symbol_type_of(v) == SymbolType::Object <==> v == 1,
        symbol_type_of(v) == SymbolType::Func <==> v == 2,
        symbol_type_of(v) == SymbolType::Section <==> v == 3,
        symbol_type_of(v) == SymbolType::File <==> v == 4,
        symbol_type_of(v) == SymbolType::Tls <==> v == 6,
        symbol_type_of(v) == SymbolType::GnuIfunc <==> v == 10,
        visibility_of(v) == SymbolVisibility::Default <==> v & 3 == 0,
        visibility_of(v) == SymbolVisibility::Internal <==> v & 3 == 1,
        visibility_of(v) == SymbolVisibility::Hidden <==> v & 3 == 2,
        visibility_of(v) == SymbolVisibility::Protected <==> v & 3 == 3,
{
    assert(v & 3 <= 3) by (bit_vector);
}

} // verus!

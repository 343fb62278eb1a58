//! ELF dynamic linking metadata.
//!
//! A `PT_DYNAMIC` segment or `SHT_DYNAMIC` section holds a table of tagged
//! values. [`DynamicTable`] decodes the table, and its accessors resolve
//! string values through the dynamic string table.

use vstd::prelude::*;

use crate::error::{Error, ErrorKind, Result};
use crate::ident::{ElfClass, Endian};
use crate::parse_utils::{array4, array8};
use crate::reader::{field32, field64, window};
use crate::strtab::{string_at, StringTable};

verus! {

/// The tag of one dynamic table entry.
#[derive(Debug, Clone, Copy, PartialEq, Eq, Hash, Structural)]
pub struct DynTag(pub u64);

impl DynTag {
    /// Marks the end of the table.
    pub const NULL: u64 = 0;
    /// Names one needed shared object.
    pub const NEEDED: u64 = 1;
    /// Size of the PLT relocation table.
    pub const PLTRELSZ: u64 = 2;
    /// Address of the PLT or GOT.
    pub const PLTGOT: u64 = 3;
    /// Address of the symbol hash table.
    pub const HASH: u64 = 4;
    /// Address of the dynamic string table.
    pub const STRTAB: u64 = 5;
    /// Address of the dynamic symbol table.
    pub const SYMTAB: u64 = 6;
    /// Address of the RELA relocation table.
    pub const RELA: u64 = 7;
    /// Total size of the RELA table.
    pub const RELASZ: u64 = 8;
    /// Size of one RELA entry.
    pub const RELAENT: u64 = 9;
    /// Total size of the dynamic string table.
    pub const STRSZ: u64 = 10;
    /// Size of one dynamic symbol entry.
    pub const SYMENT: u64 = 11;
    /// Address of the init function.
    pub const INIT: u64 = 12;
    /// Address of the fini function.
    pub const FINI: u64 = 13;
    /// String-table offset of the shared object name.
    pub const SONAME: u64 = 14;
    /// String-table offset of the library search path.
    pub const RPATH: u64 = 15;
    /// Marks a symbolic link.
    pub const SYMBOLIC: u64 = 16;
    /// Address of the REL relocation table.
    pub const REL: u64 = 17;
    /// Total size of the REL table.
    pub const RELSZ: u64 = 18;
    /// Size of one REL entry.
    pub const RELENT: u64 = 19;
    /// Relocation type of the PLT entries.
    pub const PLTREL: u64 = 20;
    /// Slot for the dynamic linker's own use.
    pub const DEBUG: u64 = 21;
    /// Marks relocation of a read-only segment.
    pub const TEXTREL: u64 = 22;
    /// Address of the PLT relocation table.
    pub const JMPREL: u64 = 23;
    /// Requires eager symbol binding.
    pub const BIND_NOW: u64 = 24;
    /// Address of the init-function array.
    pub const INIT_ARRAY: u64 = 25;
    /// Address of the fini-function array.
    pub const FINI_ARRAY: u64 = 26;
    /// Size of the init-function array.
    pub const INIT_ARRAYSZ: u64 = 27;
    /// Size of the fini-function array.
    pub const FINI_ARRAYSZ: u64 = 28;
    /// String-table offset of the runtime search path.
    pub const RUNPATH: u64 = 29;
    /// Generic dynamic flags.
    pub const FLAGS: u64 = 30;
    /// Address of the GNU-style hash table.
    pub const GNU_HASH: u64 = 0x6fff_fef5;
    /// Address of the symbol version definitions.
    pub const VERDEF: u64 = 0x6fff_fffc;

    /// Returns the raw tag value.
    pub fn value(self) -> (res: u64)
        ensures
            res == self.0,
    {
        self.0
    }
}

/// One dynamic table entry.
#[derive(Debug, Clone, Copy, PartialEq, Eq, Hash, Structural)]
pub struct DynamicEntry {
    /// The entry tag.
    pub tag: DynTag,
    /// The entry value: an address, a size, or a string-table offset.
    pub value: u64,
}

/// The size of one dynamic entry for `class`.
pub open spec fn dyn_entry_size(class: ElfClass) -> int {
    match class {
        ElfClass::Elf64 => 16,
        ElfClass::Elf32 => 8,
    }
}

/// The dynamic entry that `data` holds at `off`.
pub open spec fn dyn_entry_at(data: Seq<u8>, off: int, e: Endian, class: ElfClass) -> DynamicEntry {
    match class {
        ElfClass::Elf64 => DynamicEntry {
            tag: DynTag(field64(data, e, off)),
            value: field64(data, e, off + 8),
        },
        ElfClass::Elf32 => DynamicEntry {
            tag: DynTag(field32(data, e, off) as u64),
            value: field32(data, e, off + 4) as u64,
        },
    }
}

/// Every whole entry of a dynamic table, `DT_NULL` entries included.
pub open spec fn raw_dyn_entries(data: Seq<u8>, e: Endian, class: ElfClass) -> Seq<DynamicEntry> {
    let n = dyn_entry_size(class);
    Seq::new(((data.len() as int) / n) as nat, |i: int| dyn_entry_at(data, i * n, e, class))
}

/// The index of the first entry tagged `tag` at or after `i`, or the length.
pub open spec fn first_tag_from(s: Seq<DynamicEntry>, tag: u64, i: int) -> int
    decreases s.len() - i,
{
    if i >= s.len() {
        s.len() as int
    } else if s[i].tag.0 == tag {
        i
    } else {
        first_tag_from(s, tag, i + 1)
    }
}

/// The entries of a dynamic table before its first `DT_NULL`.
pub open spec fn dyn_entries_of(data: Seq<u8>, e: Endian, class: ElfClass) -> Seq<DynamicEntry> {
    let raw = raw_dyn_entries(data, e, class);
    raw.take(first_tag_from(raw, 0, 0))
}

/// The value of the first entry tagged `tag`.
pub open spec fn find_tag(s: Seq<DynamicEntry>, tag: u64) -> Option<u64> {
    let i = first_tag_from(s, tag, 0);
    if i < s.len() {
        Some(s[i].value)
    } else {
        None
    }
}

/// The string at a string-table offset given as a 64-bit value.
pub open spec fn string_at_value(strtab: Seq<u8>, off: u64) -> Option<Seq<char>> {
    if off > usize::MAX {
        None
    } else {
        string_at(strtab, off as int)
    }
}

/// The names that the `DT_NEEDED` entries of `s` resolve to, in table order,
/// skipping the ones that do not resolve.
pub open spec fn needed_of(s: Seq<DynamicEntry>, strtab: Seq<u8>) -> Seq<Seq<char>>
    decreases s.len(),
{
    if s.len() == 0 {
        Seq::empty()
    } else {
        let rest = needed_of(s.drop_last(), strtab);
        let last = s.last();
        if last.tag.0 == DynTag::NEEDED {
            match string_at_value(strtab, last.value) {
                Some(name) => rest.push(name),
                None => rest,
            }
        } else {
            rest
        }
    }
}

/// `first_tag_from` lies between its start and the end, and no earlier entry
/// carries the tag.
pub proof fn lemma_first_tag_bounds(s: Seq<DynamicEntry>, tag: u64, i: int)
    requires
        0 <= i <= s.len(),
    ensures
        i <= first_tag_from(s, tag, i) <= s.len(),
        forall|j: int| i <= j < first_tag_from(s, tag, i) ==> s[j].tag.0 != tag,
        first_tag_from(s, tag, i) < s.len() ==> s[first_tag_from(s, tag, i)].tag.0 == tag,
    decreases s.len() - i,
{
    if i < s.len() && s[i].tag.0 != tag {
        lemma_first_tag_bounds(s, tag, i + 1);
    }
}

/// A parsed dynamic table.
#[derive(Debug, Clone, PartialEq, Eq)]
pub struct DynamicTable {
    /// The entries in table order, ending before `DT_NULL`.
    pub entries: Vec<DynamicEntry>,
}

impl Default for DynamicTable {
    fn default() -> (res: Self)
        ensures
            res.entries@ == Seq::<DynamicEntry>::empty(),
    {
        DynamicTable { entries: Vec::new() }
    }
}

impl DynamicTable {
    /// Parses a dynamic table from its segment or section bytes.
    ///
    /// Parsing stops at the first `DT_NULL` entry. Returns an error when the
    /// table is not a whole number of entries.
    pub fn parse(data: &[u8], endian: Endian, class: ElfClass) -> (res: Result<Self>)
        ensures
            (data@.len() as int) % dyn_entry_size(class) == 0 ==> (res matches Ok(t)
                && t.entries@ == dyn_entries_of(data@, endian, class)),
            (data@.len() as int) % dyn_entry_size(class) != 0 ==> (res matches Err(e)
                && e.kind_spec() matches ErrorKind::InvalidSection(m) && m@ == "dynamic table is not a whole number of entries"@),
    {
        let entry_size: usize = match class {
            ElfClass::Elf64 => 16,
            ElfClass::Elf32 => 8,
        };
        if data.len() % entry_size != 0 {
            return Err(Error::invalid_section("dynamic table is not a whole number of entries"));
        }
        let count = data.len() / entry_size;
        let ghost raw = raw_dyn_entries(data@, endian, class);
        let mut entries: Vec<DynamicEntry> = Vec::new();
        let mut index: usize = 0;
        while index < count
            invariant_except_break
                index <= count,
                count == raw.len(),
                count == (data@.len() as int) / (entry_size as int),
                entry_size == dyn_entry_size(class),
                raw == raw_dyn_entries(data@, endian, class),
                entries@ == raw.take(index as int),
                first_tag_from(raw, 0, 0) == first_tag_from(raw, 0, index as int),
            ensures
                entries@ == raw.take(first_tag_from(raw, 0, 0)),
            decreases count - index,
        {
            proof {
                crate::parse_utils::lemma_entry_in_table(
                    data@.len() as int,
                    entry_size as int,
                    index as int,
                );
                assert(data@.len() == data.len());
            }
            let base = index * entry_size;
            let tag;
            let value;
            match class {
                ElfClass::Elf64 => {
                    tag = endian.u64(array8(data, base).unwrap());
                    value = endian.u64(array8(data, base + 8).unwrap());
                },
                ElfClass::Elf32 => {
                    tag = endian.u32(array4(data, base).unwrap()) as u64;
                    value = endian.u32(array4(data, base + 4).unwrap()) as u64;
                },
            }
            let entry = DynamicEntry { tag: DynTag(tag), value };
            assert(entry == raw[index as int]);
            if tag == DynTag::NULL {
                break;
            }
            entries.push(entry);
            index = index + 1;
            assert(entries@ =~= raw.take(index as int));
        }
        Ok(DynamicTable { entries })
    }

    /// Returns the entries in table order.
    pub fn entries(&self) -> (res: &[DynamicEntry])
        ensures
            res@ == self.entries@,
    {
        self.entries.as_slice()
    }

    /// Returns the first value stored for `tag`.
    pub fn find(&self, tag: DynTag) -> (res: Option<u64>)
        ensures
            res == find_tag(self.entries@, tag.0),
    {
        let mut i: usize = 0;
        while i < self.entries.len()
            invariant
                i <= self.entries@.len(),
                first_tag_from(self.entries@, tag.0, 0) == first_tag_from(
                    self.entries@,
                    tag.0,
                    i as int,
                ),
            decreases self.entries@.len() - i,
        {
            if self.entries[i].tag.0 == tag.0 {
                return Some(self.entries[i].value);
            }
            i = i + 1;
        }
        None
    }

    /// Returns the names of every needed shared object.
    ///
    /// Entries whose string does not resolve are skipped.
    pub fn needed(&self, strtab: StringTable<'_>) -> (res: Vec<String>)
        ensures
            res@.map_values(|s: String| s@) == needed_of(self.entries@, strtab.bytes_spec()),
    {
        let mut out: Vec<String> = Vec::new();
        let mut i: usize = 0;
        while i < self.entries.len()
            invariant
                i <= self.entries@.len(),
                out@.map_values(|s: String| s@) == needed_of(
                    self.entries@.take(i as int),
                    strtab.bytes_spec(),
                ),
            decreases self.entries@.len() - i,
        {
            let entry = self.entries[i];
            let ghost before = out@.map_values(|s: String| s@);
            assert(self.entries@.take(i + 1).drop_last() =~= self.entries@.take(i as int));
            if entry.tag.0 == DynTag::NEEDED {
                match string_from(strtab, entry.value) {
                    Some(name) => {
                        out.push(name);
                        assert(out@.map_values(|s: String| s@) =~= before.push(name@));
                    },
                    None => {},
                }
            }
            i = i + 1;
        }
        assert(self.entries@.take(self.entries@.len() as int) =~= self.entries@);
        out
    }

    /// Returns the shared object name of this object.
    pub fn soname(&self, strtab: StringTable<'_>) -> (res: Option<String>)
        ensures
            opt_string_view(res) == string_value_spec(self.entries@, DynTag::SONAME, strtab.bytes_spec()),
    {
        self.string_value(DynTag(DynTag::SONAME), strtab)
    }

    /// Returns the runtime library search path.
    pub fn runpath(&self, strtab: StringTable<'_>) -> (res: Option<String>)
        ensures
            opt_string_view(res) == string_value_spec(self.entries@, DynTag::RUNPATH, strtab.bytes_spec()),
    {
        self.string_value(DynTag(DynTag::RUNPATH), strtab)
    }

    /// Returns the link-time library search path.
    pub fn rpath(&self, strtab: StringTable<'_>) -> (res: Option<String>)
        ensures
            opt_string_view(res) == string_value_spec(self.entries@, DynTag::RPATH, strtab.bytes_spec()),
    {
        self.string_value(DynTag(DynTag::RPATH), strtab)
    }

    fn string_value(&self, tag: DynTag, strtab: StringTable<'_>) -> (res: Option<String>)
        ensures
            opt_string_view(res) == string_value_spec(self.entries@, tag.0, strtab.bytes_spec()),
    {
        match self.find(tag) {
            Some(v) => string_from(strtab, v),
            None => None,
        }
    }
}

/// The view of an optional owned string.
pub open spec fn opt_string_view(s: Option<String>) -> Option<Seq<char>> {
    match s {
        Some(s) => Some(s@),
        None => None,
    }
}

/// The string that the first entry tagged `tag` names.
pub open spec fn string_value_spec(s: Seq<DynamicEntry>, tag: u64, strtab: Seq<u8>) -> Option<Seq<char>> {
    match find_tag(s, tag) {
        Some(v) => string_at_value(strtab, v),
        None => None,
    }
}

fn string_from(strtab: StringTable<'_>, offset: u64) -> (res: Option<String>)
    ensures
        opt_string_view(res) == string_at_value(strtab.bytes_spec(), offset),
{
    if offset > usize::MAX as u64 {
        return None;
    }
    match strtab.get(offset as usize) {
        Some(s) => Some(s.to_owned()),
        None => None,
    }
}

/// An ELF64 dynamic entry (`Elf64_Dyn`) holds `d_tag` in bytes 0..8 and
/// `d_val` in bytes 8..16: the `i`-th entry of a table whose `i`-th entry
/// holds these fields has exactly them, and the parsed table keeps it when
/// no entry up to it is `DT_NULL`.
pub proof fn lemma_dyn_entry_layout64(data: Seq<u8>, e: Endian, i: int, tag: u64, value: u64)
    requires
        0 <= i,
        (i + 1) * 16 <= data.len(),
        data.subrange(i * 16, i * 16 + 16) == e.encode64(tag) + e.encode64(value),
    ensures
        raw_dyn_entries(data, e, ElfClass::Elf64).len() > i,
        raw_dyn_entries(data, e, ElfClass::Elf64)[i] == (DynamicEntry { tag: DynTag(tag), value: value }),
        (forall|j: int|
            0 <= j <= i ==> (#[trigger] raw_dyn_entries(data, e, ElfClass::Elf64)[j]).tag.0 != DynTag::NULL)
            ==> dyn_entries_of(data, e, ElfClass::Elf64).len() > i && dyn_entries_of(
            data,
            e,
            ElfClass::Elf64,
        )[i] == (DynamicEntry { tag: DynTag(tag), value: value }),
{
    let off = i * 16;
    let entry = data.subrange(off, off + 16);
    crate::ident::lemma_decode64_encode64(e, tag);
    crate::ident::lemma_decode64_encode64(e, value);
    assert((data.len() as int) / 16 > i) by (nonlinear_arith)
        requires
            (i + 1) * 16 <= data.len(),
            0 <= i,
    ;
    assert(window(data, off, 8) =~= e.encode64(tag)) by {
        assert forall|k: int| 0 <= k < 8 implies #[trigger] window(data, off, 8)[k] == entry[k] by {}
    }
    assert(window(data, off + 8, 8) =~= e.encode64(value)) by {
        assert forall|k: int| 0 <= k < 8 implies #[trigger] window(data, off + 8, 8)[k] == entry[8 + k] by {}
    }
    let raw = raw_dyn_entries(data, e, ElfClass::Elf64);
    if forall|j: int| 0 <= j <= i ==> (#[trigger] raw[j]).tag.0 != DynTag::NULL {
        lemma_first_tag_bounds(raw, 0, 0);
        let f = first_tag_from(raw, 0, 0);
        if f <= i {
            assert(raw[f].tag.0 == 0);
        }
    }
}

/// An ELF32 dynamic entry (`Elf32_Dyn`) holds `d_tag` in bytes 0..4 and
/// `d_val` in bytes 4..8: the `i`-th entry of a table whose `i`-th entry
/// holds these fields has exactly them, and the parsed table keeps it when
/// no entry up to it is `DT_NULL`.
pub proof fn lemma_dyn_entry_layout32(data: Seq<u8>, e: Endian, i: int, tag: u32, value: u32)
    requires
        0 <= i,
        (i + 1) * 8 <= data.len(),
        data.subrange(i * 8, i * 8 + 8) == e.encode32(tag) + e.encode32(value),
    ensures
        raw_dyn_entries(data, e, ElfClass::Elf32).len() > i,
        raw_dyn_entries(data, e, ElfClass::Elf32)[i] == (DynamicEntry { tag: DynTag(tag as u64), value: value as u64 }),
        (forall|j: int|
            0 <= j <= i ==> (#[trigger] raw_dyn_entries(data, e, ElfClass::Elf32)[j]).tag.0 != DynTag::NULL)
            ==> dyn_entries_of(data, e, ElfClass::Elf32).len() > i && dyn_entries_of(
            data,
            e,
            ElfClass::Elf32,
        )[i] == (DynamicEntry { tag: DynTag(tag as u64), value: value as u64 }),
{
    let off = i * 8;
    let entry = data.subrange(off, off + 8);
    crate::ident::lemma_decode32_encode32(e, tag);
    crate::ident::lemma_decode32_encode32(e, value);
    assert((data.len() as int) / 8 > i) by (nonlinear_arith)
        requires
            (i + 1) * 8 <= data.len(),
            0 <= i,
    ;
    assert(window(data, off, 4) =~= e.encode32(tag)) by {
        assert forall|k: int| 0 <= k < 4 implies #[trigger] window(data, off, 4)[k] == entry[k] by {}
    }
    assert(window(data, off + 4, 4) =~= e.encode32(value)) by {
        assert forall|k: int| 0 <= k < 4 implies #[trigger] window(data, off + 4, 4)[k] == entry[4 + k] by {}
    }
    let raw = raw_dyn_entries(data, e, ElfClass::Elf32);
    if forall|j: int| 0 <= j <= i ==> (#[trigger] raw[j]).tag.0 != DynTag::NULL {
        lemma_first_tag_bounds(raw, 0, 0);
        let f = first_tag_from(raw, 0, 0);
        if f <= i {
            assert(raw[f].tag.0 == 0);
        }
    }
}

/// A lookup by tag answers with the value of the first entry that carries
/// the tag, and with nothing when no entry carries it.
pub proof fn lemma_find_tag_first(s: Seq<DynamicEntry>, tag: u64)
    ensures
        find_tag(s, tag) is None <==> forall|i: int| 0 <= i < s.len() ==> (#[trigger] s[i]).tag.0
            != tag,
        find_tag(s, tag) matches Some(v) ==> exists|i: int|
            0 <= i < s.len() && (#[trigger] s[i]).tag.0 == tag && s[i].value == v && forall|j: int|
                0 <= j < i ==> (#[trigger] s[j]).tag.0 != tag,
{
    lemma_first_tag_bounds(s, tag, 0);
    let i = first_tag_from(s, tag, 0);
    if i < s.len() {
        assert(s[i].tag.0 == tag);
    }
}

/// The needed libraries are the names that the `DT_NEEDED` (tag 1)
/// entries' values resolve to in the string table, one per such entry and
/// in table order; an entry whose value does not resolve adds no name.
pub proof fn lemma_needed_names(s: Seq<DynamicEntry>, strtab: Seq<u8>)
    ensures
        needed_of(s, strtab) == s.filter(
            |d: DynamicEntry| d.tag.0 == 1 && string_at_value(strtab, d.value) is Some,
        ).map_values(|d: DynamicEntry| string_at_value(strtab, d.value)->0),
    decreases s.len(),
{
    reveal(Seq::filter);
    let p = |d: DynamicEntry| d.tag.0 == 1 && string_at_value(strtab, d.value) is Some;
    let f = |d: DynamicEntry| string_at_value(strtab, d.value)->0;
    if s.len() == 0 {
        assert(s.filter(p).map_values(f) =~= Seq::<Seq<char>>::empty());
    } else {
        lemma_needed_names(s.drop_last(), strtab);
        let fd = s.drop_last().filter(p);
        if p(s.last()) {
            assert(s.filter(p) == fd.push(s.last()));
            assert(fd.push(s.last()).map_values(f) =~= fd.map_values(f).push(f(s.last())));
        } else {
            assert(s.filter(p) == fd);
        }
    }
}

} // verus!

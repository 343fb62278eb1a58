//! Fluent builder for constructing an [`ElfImage`] from scratch.
//!
//! [`ElfBuilder`] creates simple ELF test fixtures without touching real
//! linker output. The builder lays the object out in file layout and parses
//! the bytes back with [`ElfImage::parse`].

use vstd::prelude::*;
use vstd::string::StringExecFns;

use crate::dynamic::DynTag;
use crate::elf::{
    file_bytes_of, file_bytes_spec, file_image_matches, file_layout_error, file_layout_ok, image_geometry, lay_segments, layout_fits,
    layout_sections, layout_windows, lemma_file_layout_round_trip, lemma_layout_windows,
    lemma_parse_after_layout, lemma_relayout, no_nul, phdr_fields_fit, same_but_range, same_but_tables,
    section_views, seg_writable, segment_views, shdr_fields_fit, stored_segment_bytes, ElfImage,
    SectionView, SegmentView, MAX_IMAGE,
};
use crate::error::Result;
use crate::header::{ElfHeader, ElfType, Machine};
use crate::ident::{ElfClass, ElfIdent, Endian, OsAbi};
use crate::notes::{note_name_bytes, notes_from, pad4, NoteModel};
use crate::reader::{field32, window};
use crate::program::{ProgramHeader, Segment, SegmentFlags, SegmentType};
use crate::reloc::RelocationEntry;
use crate::section::{Section, SectionFlags, SectionHeader, SectionType};

verus! {

/// A loadable segment to build: address, permissions, alignment, bytes.
pub type LoadModel = (u64, SegmentFlags, u64, Seq<u8>);

/// A TLS template to build: address, initialized bytes, memory size,
/// alignment.
pub type TlsModel = (u64, Seq<u8>, u64, u64);

/// What a builder holds.
pub struct BuilderModel {
    /// The ELF class.
    pub class: ElfClass,
    /// The byte order.
    pub endian: Endian,
    /// The object file type.
    pub elf_type: ElfType,
    /// The machine architecture.
    pub machine: Machine,
    /// The entry-point virtual address.
    pub entry: u64,
    /// The operating-system ABI.
    pub os_abi: OsAbi,
    /// The processor-specific flags.
    pub flags: u32,
    /// The loadable segments, in order.
    pub loads: Seq<LoadModel>,
    /// The note records, in order.
    pub notes: Seq<NoteModel>,
    /// The relocation entries.
    pub relocations: Seq<RelocationEntry>,
    /// The TLS template, when there is one.
    pub tls: Option<TlsModel>,
    /// The shared-library dependencies, in order.
    pub needed: Seq<Seq<char>>,
}

/// A fluent builder for [`ElfImage`] test fixtures.
#[derive(Debug, Clone)]
pub struct ElfBuilder {
    class: ElfClass,
    endian: Endian,
    elf_type: ElfType,
    machine: Machine,
    entry: u64,
    os_abi: OsAbi,
    flags: u32,
    loads: Vec<LoadSpec>,
    notes: Vec<NoteSpec>,
    relocations: Vec<RelocationEntry>,
    tls: Option<TlsSpec>,
    needed: Vec<String>,
}

#[derive(Debug, Clone)]
struct LoadSpec {
    vaddr: u64,
    flags: SegmentFlags,
    align: u64,
    data: Vec<u8>,
}

#[derive(Debug, Clone)]
struct NoteSpec {
    name: String,
    note_type: u32,
    descriptor: Vec<u8>,
}

#[derive(Debug, Clone)]
struct TlsSpec {
    vaddr: u64,
    data: Vec<u8>,
    memsz: u64,
    align: u64,
}

impl View for ElfBuilder {
    type V = BuilderModel;

    closed spec fn view(&self) -> BuilderModel {
        BuilderModel {
            class: self.class,
            endian: self.endian,
            elf_type: self.elf_type,
            machine: self.machine,
            entry: self.entry,
            os_abi: self.os_abi,
            flags: self.flags,
            loads: self.loads@.map_values(|l: LoadSpec| (l.vaddr, l.flags, l.align, l.data@)),
            notes: self.notes@.map_values(|n: NoteSpec| (n.name@, n.note_type, n.descriptor@)),
            relocations: self.relocations@,
            tls: match self.tls {
                Some(t) => Some((t.vaddr, t.data@, t.memsz, t.align)),
                None => None,
            },
            needed: self.needed@.map_values(|s: String| s@),
        }
    }
}

/// The builder that [`ElfBuilder::new`] makes: x86-64, 64-bit
/// little-endian, an executable with nothing in it.
pub open spec fn default_model() -> BuilderModel {
    BuilderModel {
        class: ElfClass::Elf64,
        endian: Endian::Little,
        elf_type: ElfType::Exec,
        machine: Machine(Machine::X86_64),
        entry: 0,
        os_abi: OsAbi(OsAbi::SYSV),
        flags: 0,
        loads: Seq::empty(),
        notes: Seq::empty(),
        relocations: Seq::empty(),
        tls: None,
        needed: Seq::empty(),
    }
}

// ---- the object a builder describes ---------------------------------------

/// The identification of the built object.
pub open spec fn built_ident(m: BuilderModel) -> ElfIdent {
    ElfIdent { class: m.class, data: m.endian, version: 1, os_abi: m.os_abi, abi_version: 0 }
}

/// The file header of the built object, before layout.
pub open spec fn built_header(m: BuilderModel) -> ElfHeader {
    ElfHeader {
        ident: built_ident(m),
        kind: m.elf_type,
        machine: m.machine,
        version: 1,
        entry: m.entry,
        phoff: 0,
        shoff: 0,
        flags: m.flags,
        ehsize: 0,
        phentsize: 0,
        phnum: 0,
        shentsize: 0,
        shnum: 0,
        shstrndx: 0,
    }
}

/// A program header with no file offset or physical-address difference.
pub open spec fn plain_phdr(kind: u32, flags: u32, vaddr: u64, filesz: u64, memsz: u64, align: u64) -> ProgramHeader {
    ProgramHeader {
        kind: SegmentType(kind),
        flags: SegmentFlags(flags),
        offset: 0,
        vaddr,
        paddr: vaddr,
        filesz,
        memsz,
        align,
    }
}

/// A section header with no address, offset, link, or info.
pub open spec fn plain_shdr(kind: u32, flags: u64, size: u64, addralign: u64, entsize: u64) -> SectionHeader {
    SectionHeader {
        name_index: 0,
        kind: SectionType(kind),
        flags: SectionFlags(flags),
        addr: 0,
        offset: 0,
        size,
        link: 0,
        info: 0,
        addralign,
        entsize,
    }
}

/// The segment of a loadable segment to build.
pub open spec fn load_segment(l: LoadModel) -> SegmentView {
    (
        ProgramHeader {
            kind: SegmentType(SegmentType::LOAD),
            flags: l.1,
            offset: 0,
            vaddr: l.0,
            paddr: l.0,
            filesz: l.3.len() as u64,
            memsz: l.3.len() as u64,
            align: l.2,
        },
        l.3,
    )
}

/// The segment of a TLS template.
pub open spec fn tls_segment(t: TlsModel) -> SegmentView {
    (plain_phdr(SegmentType::TLS, SegmentFlags::READ, t.0, t.1.len() as u64, t.2, t.3), t.1)
}

/// A length as a `u32`, or zero when it does not fit.
pub open spec fn len_u32(n: int) -> u32 {
    if 0 <= n <= u32::MAX {
        n as u32
    } else {
        0
    }
}

/// The serialized bytes of one note record: its header, its name with a
/// terminating NUL, and its descriptor, each padded to four bytes.
pub open spec fn note_bytes(n: NoteModel, e: Endian) -> Seq<u8> {
    let name = vstd::utf8::encode_utf8(n.0);
    let head = e.encode32(len_u32(name.len() as int + 1)) + e.encode32(len_u32(n.2.len() as int))
        + e.encode32(n.1) + name + seq![0u8];
    let head_padded = head + Seq::new(pad4(head.len() as int) as nat, |j: int| 0u8);
    let all = head_padded + n.2;
    all + Seq::new(pad4(all.len() as int) as nat, |j: int| 0u8)
}

/// The serialized bytes of a list of note records, one after the other.
pub open spec fn notes_bytes(ns: Seq<NoteModel>, e: Endian) -> Seq<u8>
    decreases ns.len(),
{
    if ns.len() == 0 {
        Seq::empty()
    } else {
        note_bytes(ns[0], e) + notes_bytes(ns.drop_first(), e)
    }
}

/// Whether a note's name and descriptor lengths fit the 32-bit size fields.
pub open spec fn note_fits(n: NoteModel) -> bool {
    &&& vstd::utf8::encode_utf8(n.0).len() + 1 <= u32::MAX
    &&& n.2.len() <= u32::MAX
}

/// Parsing the bytes of one note record, wherever they stand, gives the
/// note, and the walk goes on right after the record.
#[verifier::spinoff_prover]
#[verifier::rlimit(60)]
proof fn lemma_note_bytes_parse(p: Seq<u8>, n: NoteModel, q: Seq<u8>, e: Endian)
    requires
        note_fits(n),
    ensures
        ({
            let data = p + note_bytes(n, e) + q;
            let next = p.len() + note_bytes(n, e).len() as int;
            notes_from(data, e, p.len() as int) == match notes_from(data, e, next) {
                Ok(rest) => Ok(seq![n] + rest),
                Err(()) => Err(()),
            }
        }),
{
    let data = p + note_bytes(n, e) + q;
    let off = p.len() as int;
    let name = vstd::utf8::encode_utf8(n.0);
    let namesz = name.len() + 1int;
    let descsz = n.2.len() as int;
    let e1 = e.encode32(len_u32(namesz));
    let e2 = e.encode32(len_u32(descsz));
    let e3 = e.encode32(n.1);
    crate::ident::lemma_decode32_encode32(e, len_u32(namesz));
    crate::ident::lemma_decode32_encode32(e, len_u32(descsz));
    crate::ident::lemma_decode32_encode32(e, n.1);
    let head = e1 + e2 + e3 + name + seq![0u8];
    let head_padded = head + Seq::new(pad4(head.len() as int) as nat, |j: int| 0u8);
    let all = head_padded + n.2;
    let nb = all + Seq::new(pad4(all.len() as int) as nat, |j: int| 0u8);
    assert(nb == note_bytes(n, e));
    assert(pad4(head.len() as int) == pad4(namesz));
    assert(pad4(all.len() as int) == pad4(descsz));
    assert(window(data, off, 4) =~= e1);
    assert(window(data, off + 4, 4) =~= e2);
    assert(window(data, off + 8, 4) =~= e3);
    assert(field32(data, e, off) == namesz);
    assert(field32(data, e, off + 4) == descsz);
    assert(field32(data, e, off + 8) == n.1);
    let name_end = off + 12 + namesz;
    let desc_start = name_end + pad4(namesz);
    assert(data.subrange(off + 12, name_end) =~= name + seq![0u8]);
    assert(note_name_bytes(name + seq![0u8]) =~= name);
    vstd::utf8::encode_utf8_valid_utf8(n.0);
    vstd::utf8::encode_utf8_decode_utf8(n.0);
    assert(data.subrange(desc_start, desc_start + descsz) =~= n.2);
}

/// Parsing the serialized bytes of a list of notes gives the notes back,
/// when at most eleven more bytes follow them: names come back without the
/// terminating NUL, types and descriptors unchanged, and padding skipped.
pub proof fn lemma_notes_round_trip(ns: Seq<NoteModel>, tail: Seq<u8>, e: Endian)
    requires
        forall|i: int| 0 <= i < ns.len() ==> note_fits(#[trigger] ns[i]),
        tail.len() < 12,
    ensures
        notes_from(notes_bytes(ns, e) + tail, e, 0) == Ok::<Seq<NoteModel>, ()>(ns),
{
    lemma_notes_round_trip_from(Seq::empty(), ns, tail, e);
    reveal(note_walk);
    assert(Seq::<u8>::empty() + notes_bytes(ns, e) + tail =~= notes_bytes(ns, e) + tail);
}

/// The note walk, kept folded while the induction below runs.
#[verifier::opaque]
spec fn note_walk(data: Seq<u8>, e: Endian, off: int) -> core::result::Result<Seq<NoteModel>, ()> {
    notes_from(data, e, off)
}

/// The walk over the bytes of one note record goes on after it.
proof fn lemma_note_walk_step(p: Seq<u8>, n: NoteModel, q: Seq<u8>, e: Endian)
    requires
        note_fits(n),
    ensures
        note_walk(p + note_bytes(n, e) + q, e, p.len() as int) == match note_walk(
            p + note_bytes(n, e) + q,
            e,
            p.len() + note_bytes(n, e).len() as int,
        ) {
            Ok(rest) => Ok(seq![n] + rest),
            Err(()) => Err(()),
        },
{
    reveal(note_walk);
    lemma_note_bytes_parse(p, n, q, e);
}

/// The walk stops at fewer than twelve bytes.
proof fn lemma_note_walk_end(p: Seq<u8>, tail: Seq<u8>, e: Endian)
    requires
        tail.len() < 12,
    ensures
        note_walk(p + tail, e, p.len() as int) == Ok::<Seq<NoteModel>, ()>(Seq::empty()),
{
    reveal(note_walk);
}

/// Regrouping a concatenation of four byte sequences.
proof fn lemma_regroup(p: Seq<u8>, a: Seq<u8>, b: Seq<u8>, t: Seq<u8>)
    ensures
        p + (a + b) + t == p + a + (b + t),
        p + (a + b) + t == (p + a) + b + t,
{
    assert(p + (a + b) + t =~= p + a + (b + t));
    assert(p + (a + b) + t =~= (p + a) + b + t);
}

/// The walk over serialized notes that follow `p` gives the notes.
proof fn lemma_notes_round_trip_from(p: Seq<u8>, ns: Seq<NoteModel>, tail: Seq<u8>, e: Endian)
    requires
        forall|i: int| 0 <= i < ns.len() ==> note_fits(#[trigger] ns[i]),
        tail.len() < 12,
    ensures
        note_walk(p + notes_bytes(ns, e) + tail, e, p.len() as int) == Ok::<Seq<NoteModel>, ()>(ns),
    decreases ns.len(),
{
    if ns.len() == 0 {
        assert(notes_bytes(ns, e) =~= Seq::<u8>::empty());
        assert(p + notes_bytes(ns, e) + tail =~= p + tail);
        lemma_note_walk_end(p, tail, e);
        assert(ns =~= Seq::<NoteModel>::empty());
    } else {
        let n = ns[0];
        let rest = ns.drop_first();
        assert(note_fits(ns[0]));
        assert forall|i: int| 0 <= i < rest.len() implies note_fits(#[trigger] rest[i]) by {
            assert(rest[i] == ns[i + 1]);
        }
        let a = note_bytes(n, e);
        let b = notes_bytes(rest, e);
        let p2 = p + a;
        lemma_notes_round_trip_from(p2, rest, tail, e);
        assert(notes_bytes(ns, e) == a + b);
        lemma_regroup(p, a, b, tail);
        lemma_note_walk_step(p, n, b + tail, e);
        let data = p + notes_bytes(ns, e) + tail;
        assert(data == p + a + (b + tail));
        assert(data == p2 + b + tail);
        assert(note_walk(data, e, p2.len() as int) == Ok::<Seq<NoteModel>, ()>(rest));
        assert(p2.len() == p.len() + a.len());
        assert(note_walk(data, e, p.len() as int) == Ok::<Seq<NoteModel>, ()>(seq![n] + rest));
        assert(seq![n] + rest =~= ns);
    }
}

/// The `PT_NOTE` segment of a note record.
pub open spec fn note_segment(n: NoteModel, e: Endian) -> SegmentView {
    let b = note_bytes(n, e);
    (plain_phdr(SegmentType::NOTE, SegmentFlags::READ, 0, b.len() as u64, b.len() as u64, 4), b)
}

/// The `SHT_NOTE` section of a note record, named `.note.<name>`.
pub open spec fn note_section(n: NoteModel, e: Endian) -> SectionView {
    let b = note_bytes(n, e);
    (
        plain_shdr(SectionType::NOTE, 0, b.len() as u64, 4, 0),
        seq!['.', 'n', 'o', 't', 'e', '.'] + n.0,
        b,
    )
}

/// The `.dynstr` bytes: a leading NUL, then each name NUL-terminated; up to
/// (not including) name `n`.
pub open spec fn dynstr_prefix(needed: Seq<Seq<char>>, n: int) -> Seq<u8>
    decreases n,
{
    if n <= 0 {
        seq![0u8]
    } else {
        dynstr_prefix(needed, n - 1) + vstd::utf8::encode_utf8(needed[n - 1]) + seq![0u8]
    }
}

/// The serialized bytes of one dynamic entry.
pub open spec fn dyn_entry_bytes(tag: u64, value: u64, e: Endian, class: ElfClass) -> Seq<u8> {
    match class {
        ElfClass::Elf64 => e.encode64(tag) + e.encode64(value),
        ElfClass::Elf32 => e.encode32(tag as u32) + e.encode32(value as u32),
    }
}

/// The `DT_NEEDED` entries of the first `n` names.
pub open spec fn needed_entries(needed: Seq<Seq<char>>, n: int, e: Endian, class: ElfClass) -> Seq<u8>
    decreases n,
{
    if n <= 0 {
        Seq::empty()
    } else {
        needed_entries(needed, n - 1, e, class) + dyn_entry_bytes(
            DynTag::NEEDED,
            dynstr_prefix(needed, n - 1).len() as u64,
            e,
            class,
        )
    }
}

/// The dynamic array: one `DT_NEEDED` entry per name, then `DT_STRTAB`,
/// `DT_STRSZ`, and `DT_NULL`.
pub open spec fn dynamic_bytes(needed: Seq<Seq<char>>, e: Endian, class: ElfClass) -> Seq<u8> {
    let dynstr = dynstr_prefix(needed, needed.len() as int);
    needed_entries(needed, needed.len() as int, e, class) + dyn_entry_bytes(DynTag::STRTAB, 0, e, class)
        + dyn_entry_bytes(DynTag::STRSZ, dynstr.len() as u64, e, class) + dyn_entry_bytes(
        DynTag::NULL,
        0,
        e,
        class,
    )
}

/// The size of one dynamic entry.
pub open spec fn dyn_entsize(class: ElfClass) -> u64 {
    match class {
        ElfClass::Elf64 => 16,
        ElfClass::Elf32 => 8,
    }
}

/// The `PT_DYNAMIC` segment.
pub open spec fn dynamic_segment(needed: Seq<Seq<char>>, e: Endian, class: ElfClass) -> SegmentView {
    let d = dynamic_bytes(needed, e, class);
    (
        plain_phdr(
            SegmentType::DYNAMIC,
            SegmentFlags::READ | SegmentFlags::WRITE,
            0,
            d.len() as u64,
            d.len() as u64,
            8,
        ),
        d,
    )
}

/// The `.dynstr` and `.dynamic` sections.
pub open spec fn dynamic_sections(needed: Seq<Seq<char>>, e: Endian, class: ElfClass) -> Seq<SectionView> {
    let dynstr = dynstr_prefix(needed, needed.len() as int);
    let d = dynamic_bytes(needed, e, class);
    seq![
        (plain_shdr(SectionType::STRTAB, SectionFlags::ALLOC, dynstr.len() as u64, 1, 0), ".dynstr"@, dynstr),
        (
            plain_shdr(
                SectionType::DYNAMIC,
                SectionFlags::ALLOC | SectionFlags::WRITE,
                d.len() as u64,
                8,
                dyn_entsize(class),
            ),
            ".dynamic"@,
            d,
        ),
    ]
}

/// An addend as the 32-bit field of an ELF32 `RELA` entry, or zero when it
/// does not fit.
pub open spec fn addend32(a: i64) -> u32 {
    if i32::MIN <= a <= i32::MAX {
        (a as i32) as u32
    } else {
        0
    }
}

/// The serialized bytes of one `RELA` entry.
pub open spec fn rela_entry_bytes(r: RelocationEntry, e: Endian, class: ElfClass) -> Seq<u8> {
    let addend = match r.addend {
        Some(a) => a,
        None => 0,
    };
    match class {
        ElfClass::Elf64 => e.encode64(r.offset) + e.encode64(((r.symbol as u64) << 32u64) | (r.r_type as u64))
            + e.encode64(addend as u64),
        ElfClass::Elf32 => e.encode32(r.offset as u32) + e.encode32((r.symbol << 8u32) | (r.r_type & 0xffu32))
            + e.encode32(addend32(addend)),
    }
}

/// The serialized bytes of a list of `RELA` entries.
pub open spec fn rela_bytes(rs: Seq<RelocationEntry>, e: Endian, class: ElfClass) -> Seq<u8>
    decreases rs.len(),
{
    if rs.len() == 0 {
        Seq::empty()
    } else {
        rela_bytes(rs.drop_last(), e, class) + rela_entry_bytes(rs.last(), e, class)
    }
}

/// The `.rela.dyn` section.
pub open spec fn rela_section(rs: Seq<RelocationEntry>, e: Endian, class: ElfClass) -> SectionView {
    let b = rela_bytes(rs, e, class);
    let entsize: u64 = match class {
        ElfClass::Elf64 => 24,
        ElfClass::Elf32 => 12,
    };
    (plain_shdr(SectionType::RELA, 0, b.len() as u64, 8, entsize), ".rela.dyn"@, b)
}

/// The section at index zero.
pub open spec fn null_section_view() -> SectionView {
    (plain_shdr(SectionType::NULL, 0, 0, 0, 0), Seq::empty(), Seq::empty())
}

/// The segments of the built object: the loadable segments, the TLS
/// template, one `PT_NOTE` per note, and `PT_DYNAMIC` when there are
/// dependencies.
pub open spec fn built_segments(m: BuilderModel) -> Seq<SegmentView> {
    let loads = m.loads.map_values(|l: LoadModel| load_segment(l));
    let tls = match m.tls {
        Some(t) => seq![tls_segment(t)],
        None => Seq::empty(),
    };
    let notes = m.notes.map_values(|n: NoteModel| note_segment(n, m.endian));
    let dynamic = if m.needed.len() == 0 {
        Seq::empty()
    } else {
        seq![dynamic_segment(m.needed, m.endian, m.class)]
    };
    loads + tls + notes + dynamic
}

/// The sections of the built object: the null section, one note section
/// per note, `.dynstr` and `.dynamic` when there are dependencies, and
/// `.rela.dyn` when there are relocations.
pub open spec fn built_sections(m: BuilderModel) -> Seq<SectionView> {
    let notes = m.notes.map_values(|n: NoteModel| note_section(n, m.endian));
    let dynamic = if m.needed.len() == 0 {
        Seq::empty()
    } else {
        dynamic_sections(m.needed, m.endian, m.class)
    };
    let rela = if m.relocations.len() == 0 {
        Seq::empty()
    } else {
        seq![rela_section(m.relocations, m.endian, m.class)]
    };
    seq![null_section_view()] + notes + dynamic + rela
}

/// The file-layout bytes of the object a builder describes.
pub open spec fn built_bytes(m: BuilderModel) -> Option<Seq<u8>> {
    file_bytes_of(built_ident(m), built_header(m), built_segments(m), built_sections(m))
}

/// Whether a builder describes an object that lays out and parses back.
pub open spec fn builds(m: BuilderModel) -> bool {
    built_bytes(m) matches Some(b) && file_layout_ok(b)
}

/// Whether the fields a builder sets fit its class: the object type is
/// canonical, the bytes of every segment it lays out can be held in memory,
/// and, for an ELF32 object, the entry point, the addresses and alignments
/// of the loadable segments, and the TLS template's address, memory size,
/// and alignment fit 32 bits.
pub open spec fn builder_fits(m: BuilderModel) -> bool {
    &&& m.elf_type.canonical()
    &&& forall|i: int|
        0 <= i < built_segments(m).len() ==> (#[trigger] built_segments(m)[i]).1.len() <= usize::MAX
    &&& m.class == ElfClass::Elf32 ==> {
        &&& m.entry <= u32::MAX
        &&& forall|i: int|
            0 <= i < m.loads.len() ==> (#[trigger] m.loads[i]).0 <= u32::MAX && m.loads[i].2
                <= u32::MAX
        &&& m.tls matches Some(t) ==> t.0 <= u32::MAX && t.2 <= u32::MAX && t.3 <= u32::MAX
    }
}

/// Each segment a builder lays out is a loadable segment, the TLS
/// template, a note segment, or the dynamic segment.
proof fn lemma_built_segment_kinds(m: BuilderModel, i: int)
    requires
        0 <= i < built_segments(m).len(),
    ensures
        ({
            let s = built_segments(m)[i];
            ||| exists|k: int| 0 <= k < m.loads.len() && s == load_segment(m.loads[k])
            ||| m.tls matches Some(t) && s == tls_segment(t)
            ||| exists|k: int| 0 <= k < m.notes.len() && s == note_segment(m.notes[k], m.endian)
            ||| s == dynamic_segment(m.needed, m.endian, m.class)
        }),
{
    let loads = m.loads.map_values(|l: LoadModel| load_segment(l));
    let tls: Seq<SegmentView> = match m.tls {
        Some(t) => seq![tls_segment(t)],
        None => Seq::empty(),
    };
    let notes = m.notes.map_values(|n: NoteModel| note_segment(n, m.endian));
    let dynamic: Seq<SegmentView> = if m.needed.len() == 0 {
        Seq::empty()
    } else {
        seq![dynamic_segment(m.needed, m.endian, m.class)]
    };
    let segs = built_segments(m);
    assert(segs == loads + tls + notes + dynamic);
    if i < loads.len() {
        assert(segs[i] == load_segment(m.loads[i]));
    } else if i < loads.len() + tls.len() {
        assert(segs[i] == tls[i - loads.len()]);
    } else if i < loads.len() + tls.len() + notes.len() {
        let k = i - loads.len() - tls.len();
        assert(segs[i] == note_segment(m.notes[k], m.endian));
    } else {
        assert(segs[i] == dynamic_segment(m.needed, m.endian, m.class));
    }
}

/// The program headers a fitting builder lays out fit its class.
#[verifier::spinoff_prover]
proof fn lemma_built_segments_fit(m: BuilderModel, b: Seq<u8>)
    requires
        builder_fits(m),
        layout_windows(built_ident(m), built_header(m), built_segments(m), built_sections(m), b),
    ensures
        forall|i: int|
            0 <= i < built_segments(m).len() ==> phdr_fields_fit(
                #[trigger] built_segments(m)[i].0,
                m.class,
            ),
{
    let segs = built_segments(m);
    let ph = lay_segments(built_ident(m), segs).2;
    assert forall|i: int| 0 <= i < segs.len() implies phdr_fields_fit(#[trigger] segs[i].0, m.class) by {
        if m.class == ElfClass::Elf32 {
            let s = segs[i];
            let w = seg_writable(s);
            assert(s.1.len() <= usize::MAX);
            assert(w > 0 ==> ph[i].offset + w <= b.len());
            assert(b.len() <= MAX_IMAGE);
            lemma_built_segment_kinds(m, i);
            if exists|k: int| 0 <= k < m.loads.len() && s == load_segment(m.loads[k]) {
                let k = choose|k: int| 0 <= k < m.loads.len() && s == load_segment(m.loads[k]);
                assert(m.loads[k].0 <= u32::MAX);
            } else if exists|k: int| 0 <= k < m.notes.len() && s == note_segment(m.notes[k], m.endian) {
            } else {
            }
        }
    }
}

/// The section headers a builder lays out fit its class.
#[verifier::spinoff_prover]
proof fn lemma_built_sections_fit(m: BuilderModel)
    ensures
        forall|j: int|
            0 <= j < built_sections(m).len() ==> shdr_fields_fit(
                #[trigger] built_sections(m)[j].0,
                m.class,
            ),
{
    let secs = built_sections(m);
    let nsecs = m.notes.map_values(|n: NoteModel| note_section(n, m.endian));
    let dsecs: Seq<SectionView> = if m.needed.len() == 0 {
        Seq::empty()
    } else {
        dynamic_sections(m.needed, m.endian, m.class)
    };
    let rsecs: Seq<SectionView> = if m.relocations.len() == 0 {
        Seq::empty()
    } else {
        seq![rela_section(m.relocations, m.endian, m.class)]
    };
    assert(secs == seq![null_section_view()] + nsecs + dsecs + rsecs);
    assert forall|j: int| 0 <= j < secs.len() implies shdr_fields_fit(#[trigger] secs[j].0, m.class) by {
        if j == 0 {
        } else if j < 1 + nsecs.len() {
            assert(secs[j] == note_section(m.notes[j - 1], m.endian));
        } else if j < 1 + nsecs.len() + dsecs.len() {
            assert(secs[j] == dsecs[j - 1 - nsecs.len()]);
            assert(2u64 | 1u64 == 3u64) by (bit_vector);
        } else {
            assert(secs[j] == rela_section(m.relocations, m.endian, m.class));
        }
    }
}

/// The headers a fitting builder lays out can be read back unchanged.
proof fn lemma_builder_layout_fits(m: BuilderModel)
    requires
        builder_fits(m),
        built_bytes(m) is Some,
    ensures
        layout_fits(built_ident(m), built_header(m), built_segments(m), built_sections(m)),
{
    let ident = built_ident(m);
    let header = built_header(m);
    let segs = built_segments(m);
    let secs = built_sections(m);
    lemma_layout_windows(ident, header, segs, secs);
    lemma_built_segments_fit(m, built_bytes(m)->0);
    lemma_built_sections_fit(m);
}

/// A builder whose fields fit its class builds whenever its object can be
/// laid out: the bytes parse back.
pub proof fn lemma_builder_builds(m: BuilderModel)
    requires
        builder_fits(m),
        built_bytes(m) is Some,
    ensures
        builds(m),
{
    lemma_builder_layout_fits(m);
    lemma_file_layout_round_trip(built_ident(m), built_header(m), built_segments(m), built_sections(m));
}

/// No segment a builder lays out is a `PT_NULL` segment.
proof fn lemma_built_segments_not_null(m: BuilderModel)
    ensures
        forall|i: int|
            0 <= i < built_segments(m).len() ==> (#[trigger] built_segments(m)[i]).0.kind.0
                != SegmentType::NULL,
{
    assert forall|i: int| 0 <= i < built_segments(m).len() implies (#[trigger] built_segments(
        m,
    )[i]).0.kind.0 != SegmentType::NULL by {
        lemma_built_segment_kinds(m, i);
    }
}

/// The names of the sections a builder lays out hold no NUL character when
/// the names of its notes hold none.
proof fn lemma_built_section_names(m: BuilderModel)
    requires
        forall|k: int| 0 <= k < m.notes.len() ==> no_nul((#[trigger] m.notes[k]).0),
    ensures
        forall|j: int| 0 <= j < built_sections(m).len() ==> no_nul((#[trigger] built_sections(m)[j]).1),
{
    reveal_strlit(".dynstr");
    reveal_strlit(".dynamic");
    reveal_strlit(".rela.dyn");
    let secs = built_sections(m);
    let nsecs = m.notes.map_values(|n: NoteModel| note_section(n, m.endian));
    let dsecs: Seq<SectionView> = if m.needed.len() == 0 {
        Seq::empty()
    } else {
        dynamic_sections(m.needed, m.endian, m.class)
    };
    let rsecs: Seq<SectionView> = if m.relocations.len() == 0 {
        Seq::empty()
    } else {
        seq![rela_section(m.relocations, m.endian, m.class)]
    };
    assert(secs == seq![null_section_view()] + nsecs + dsecs + rsecs);
    assert forall|j: int| 0 <= j < secs.len() implies no_nul((#[trigger] secs[j]).1) by {
        if j == 0 {
        } else if j < 1 + nsecs.len() {
            let n = m.notes[j - 1];
            assert(secs[j] == note_section(n, m.endian));
            assert(no_nul(n.0));
            let name = seq!['.', 'n', 'o', 't', 'e', '.'] + n.0;
            assert forall|c: int| 0 <= c < name.len() implies (#[trigger] name[c]) as u32 != 0 by {
                if c >= 6 {
                    assert(name[c] == n.0[c - 6]);
                }
            }
        } else if j < 1 + nsecs.len() + dsecs.len() {
            assert(secs[j] == dsecs[j - 1 - nsecs.len()]);
        } else {
            assert(secs[j] == rela_section(m.relocations, m.endian, m.class));
        }
    }
}

/// The image a fitting builder builds lays out to the same bytes again when
/// the names of its notes hold no NUL character: building, parsing, and
/// building again gives the bytes of the first build.
pub proof fn lemma_builder_rebuilds(m: BuilderModel, img: ElfImage)
    requires
        builder_fits(m),
        built_bytes(m) is Some,
        forall|k: int| 0 <= k < m.notes.len() ==> no_nul((#[trigger] m.notes[k]).0),
        file_image_matches(built_bytes(m)->0, img),
    ensures
        file_bytes_spec(img) == built_bytes(m),
{
    lemma_builder_layout_fits(m);
    lemma_built_segments_not_null(m);
    lemma_built_section_names(m);
    lemma_relayout(built_ident(m), built_header(m), built_segments(m), built_sections(m), img);
}

/// The file layout stores all the bytes of every segment a fitting builder
/// lays out.
proof fn lemma_built_segment_stored(m: BuilderModel, i: int)
    requires
        builder_fits(m),
        0 <= i < built_segments(m).len(),
    ensures
        built_segments(m)[i].0.filesz == built_segments(m)[i].1.len(),
        seg_writable(built_segments(m)[i]) == built_segments(m)[i].1.len(),
        stored_segment_bytes(built_segments(m)[i]) == built_segments(m)[i].1,
{
    let s = built_segments(m)[i];
    lemma_built_segment_kinds(m, i);
    lemma_built_segments_not_null(m);
    assert(s.1.len() <= usize::MAX);
    assert(s.1.take(s.1.len() as int) =~= s.1);
    if s.1.len() == 0 {
        assert(s.1 =~= Seq::<u8>::empty());
    }
}

/// The sections a builder's file layout writes, in order: its sections
/// with the section-name string table and every name offset in place.
#[verifier::opaque]
pub open spec fn built_layout_sections(m: BuilderModel) -> Seq<SectionView> {
    layout_sections(built_sections(m)).0
}

/// The image a fitting builder builds holds what the builder was given: the
/// identification, the header fields other than the table geometry, every
/// program header with only its file range changed, each segment's stored
/// bytes, and each section's bytes and each name without a NUL character,
/// in the order the file layout writes the sections.
#[verifier::spinoff_prover]
#[verifier::rlimit(60)]
pub proof fn lemma_builder_image(m: BuilderModel, img: ElfImage)
    requires
        builder_fits(m),
        built_bytes(m) is Some,
        file_image_matches(built_bytes(m)->0, img),
    ensures
        img.ident_spec() == built_ident(m),
        same_but_tables(img.header_spec(), built_header(m)),
        img.segments_spec().len() == built_segments(m).len(),
        forall|i: int|
            0 <= i < built_segments(m).len() ==> same_but_range(
                #[trigger] img.segments_spec()[i].header,
                built_segments(m)[i].0,
            ) && img.segments_spec()[i].header.filesz == built_segments(m)[i].1.len()
                && img.segments_spec()[i].data@ == built_segments(m)[i].1,
        img.sections_spec().len() == built_layout_sections(m).len(),
        forall|j: int|
            0 <= j < img.sections_spec().len() && !(#[trigger] built_layout_sections(m)[j]).0.nobits_spec() ==> img.sections_spec()[j].data@ == built_layout_sections(m)[j].2,
        forall|j: int|
            0 <= j < img.sections_spec().len() && no_nul(
                (#[trigger] built_layout_sections(m)[j]).1,
            ) ==> img.sections_spec()[j].name@ == built_layout_sections(m)[j].1,
{
    let segs = built_segments(m);
    lemma_builder_image_segments(m, img);
    lemma_builder_image_sections(m, img);
    let ps = img.segments_spec();
    assert forall|i: int| 0 <= i < segs.len() implies same_but_range(#[trigger] ps[i].header, segs[i].0)
        && ps[i].header.filesz == segs[i].1.len() && ps[i].data@ == segs[i].1 by {
        assert(same_but_range(ps[i].header, segs[i].0));
        lemma_built_segment_stored(m, i);
    }
}

/// The identification, header, and segments of the image a fitting
/// builder builds.
#[verifier::spinoff_prover]
#[verifier::rlimit(60)]
proof fn lemma_builder_image_segments(m: BuilderModel, img: ElfImage)
    requires
        builder_fits(m),
        built_bytes(m) is Some,
        file_image_matches(built_bytes(m)->0, img),
    ensures
        img.ident_spec() == built_ident(m),
        same_but_tables(img.header_spec(), built_header(m)),
        img.segments_spec().len() == built_segments(m).len(),
        forall|i: int|
            0 <= i < built_segments(m).len() ==> same_but_range(
                #[trigger] img.segments_spec()[i].header,
                built_segments(m)[i].0,
            ) && img.segments_spec()[i].header.filesz == built_segments(m)[i].1.len()
                && img.segments_spec()[i].data@ == built_segments(m)[i].1,
{
    let segs = built_segments(m);
    lemma_builder_layout_fits(m);
    lemma_parse_after_layout(built_ident(m), built_header(m), segs, built_sections(m), img);
    let ps = img.segments_spec();
    assert forall|i: int| 0 <= i < segs.len() implies same_but_range(#[trigger] ps[i].header, segs[i].0)
        && ps[i].header.filesz == segs[i].1.len() && ps[i].data@ == segs[i].1 by {
        assert(same_but_range(ps[i].header, segs[i].0));
        lemma_built_segment_stored(m, i);
    }
}

/// The sections of the image a fitting builder builds.
#[verifier::spinoff_prover]
#[verifier::rlimit(60)]
proof fn lemma_builder_image_sections(m: BuilderModel, img: ElfImage)
    requires
        builder_fits(m),
        built_bytes(m) is Some,
        file_image_matches(built_bytes(m)->0, img),
    ensures
        img.sections_spec().len() == built_layout_sections(m).len(),
        forall|j: int|
            0 <= j < img.sections_spec().len() && !(#[trigger] built_layout_sections(m)[j]).0.nobits_spec() ==> img.sections_spec()[j].data@ == built_layout_sections(m)[j].2,
        forall|j: int|
            0 <= j < img.sections_spec().len() && no_nul(
                (#[trigger] built_layout_sections(m)[j]).1,
            ) ==> img.sections_spec()[j].name@ == built_layout_sections(m)[j].1,
{
    reveal(built_layout_sections);
    let secs = built_sections(m);
    lemma_builder_layout_fits(m);
    lemma_parse_after_layout(built_ident(m), built_header(m), built_segments(m), secs, img);
    let lv = layout_sections(secs).0;
    let pc = img.sections_spec();
    assert(secs.len() > 0);
    assert(pc.len() == lv.len());
    assert forall|j: int| 0 <= j < pc.len() && !(#[trigger] lv[j]).0.nobits_spec() implies pc[j].data@
        == lv[j].2 by {}
    assert forall|j: int| 0 <= j < pc.len() && no_nul((#[trigger] lv[j]).1) implies pc[j].name@
        == lv[j].1 by {}
}

impl Default for ElfBuilder {
    fn default() -> (res: Self)
        ensures
            res@ == default_model(),
    {
        Self::new()
    }
}

impl ElfBuilder {
    /// Creates a builder with x86-64, 64-bit little-endian defaults.
    pub fn new() -> (res: Self)
        ensures
            res@ == default_model(),
    {
        let b = ElfBuilder {
            class: ElfClass::Elf64,
            endian: Endian::Little,
            elf_type: ElfType::Exec,
            machine: Machine(Machine::X86_64),
            entry: 0,
            os_abi: OsAbi(OsAbi::SYSV),
            flags: 0,
            loads: Vec::new(),
            notes: Vec::new(),
            relocations: Vec::new(),
            tls: None,
            needed: Vec::new(),
        };
        assert(b@.loads =~= Seq::empty());
        assert(b@.notes =~= Seq::empty());
        assert(b@.needed =~= Seq::empty());
        b
    }

    /// Sets the ELF class.
    pub fn class(self, class: ElfClass) -> (res: Self)
        ensures
            res@ == (BuilderModel { class, ..self@ }),
    {
        let mut b = self;
        b.class = class;
        b
    }

    /// Sets the byte order.
    pub fn endian(self, endian: Endian) -> (res: Self)
        ensures
            res@ == (BuilderModel { endian, ..self@ }),
    {
        let mut b = self;
        b.endian = endian;
        b
    }

    /// Sets the object file type.
    pub fn elf_type(self, elf_type: ElfType) -> (res: Self)
        ensures
            res@ == (BuilderModel { elf_type, ..self@ }),
    {
        let mut b = self;
        b.elf_type = elf_type;
        b
    }

    /// Sets the machine architecture.
    pub fn machine(self, machine: Machine) -> (res: Self)
        ensures
            res@ == (BuilderModel { machine, ..self@ }),
    {
        let mut b = self;
        b.machine = machine;
        b
    }

    /// Sets the entry-point virtual address.
    pub fn entry(self, entry: u64) -> (res: Self)
        ensures
            res@ == (BuilderModel { entry, ..self@ }),
    {
        let mut b = self;
        b.entry = entry;
        b
    }

    /// Sets the operating-system ABI.
    pub fn os_abi(self, os_abi: OsAbi) -> (res: Self)
        ensures
            res@ == (BuilderModel { os_abi, ..self@ }),
    {
        let mut b = self;
        b.os_abi = os_abi;
        b
    }

    /// Sets the processor-specific flags.
    pub fn flags(self, flags: u32) -> (res: Self)
        ensures
            res@ == (BuilderModel { flags, ..self@ }),
    {
        let mut b = self;
        b.flags = flags;
        b
    }

    /// Adds a loadable segment with the given virtual address, permissions,
    /// and bytes. The alignment defaults to `0x1000`.
    pub fn add_load(self, vaddr: u64, flags: SegmentFlags, data: Vec<u8>) -> (res: Self)
        ensures
            res@ == (BuilderModel { loads: self@.loads.push((vaddr, flags, 0x1000u64, data@)), ..self@ }),
    {
        self.add_load_aligned(vaddr, flags, 0x1000, data)
    }

    /// Adds a loadable segment with explicit alignment.
    pub fn add_load_aligned(self, vaddr: u64, flags: SegmentFlags, align: u64, data: Vec<u8>) -> (res:
        Self)
        ensures
            res@ == (BuilderModel { loads: self@.loads.push((vaddr, flags, align, data@)), ..self@ }),
    {
        let mut b = self;
        let ghost before = b.loads@;
        b.loads.push(LoadSpec { vaddr, flags, align, data });
        assert(b@.loads =~= self@.loads.push((vaddr, flags, align, data@)));
        b
    }

    /// Embeds a note record.
    ///
    /// The builder serializes the note into its own `PT_NOTE` segment and a
    /// `SHT_NOTE` section named `.note.<name>`.
    pub fn add_note(self, name: &str, note_type: u32, descriptor: Vec<u8>) -> (res: Self)
        ensures
            res@ == (BuilderModel {
                notes: self@.notes.push((name@, note_type, descriptor@)),
                ..self@
            }),
    {
        let mut b = self;
        b.notes.push(NoteSpec { name: name.to_owned(), note_type, descriptor });
        assert(b@.notes =~= self@.notes.push((name@, note_type, descriptor@)));
        b
    }

    /// Adds relocation entries that become a `.rela.dyn` section.
    pub fn add_relocations(self, entries: Vec<RelocationEntry>) -> (res: Self)
        ensures
            res@ == (BuilderModel { relocations: self@.relocations + entries@, ..self@ }),
    {
        let mut b = self;
        let mut i: usize = 0;
        let ghost start = b.relocations@;
        while i < entries.len()
            invariant
                i <= entries@.len(),
                b@ == (BuilderModel { relocations: start + entries@.take(i as int), ..self@ }),
            decreases entries@.len() - i,
        {
            proof {
                assert(entries@.take(i + 1) =~= entries@.take(i as int).push(entries@[i as int]));
            }
            b.relocations.push(entries[i]);
            i = i + 1;
        }
        assert(entries@.take(entries@.len() as int) =~= entries@);
        b
    }

    /// Adds a thread-local storage template segment.
    ///
    /// `data` holds the initialized bytes. `memsz` is the total per-thread
    /// size (at least the data length for zero-filled `.tbss`). `align` is
    /// the TLS alignment.
    pub fn add_tls(self, vaddr: u64, data: Vec<u8>, memsz: u64, align: u64) -> (res: Self)
        ensures
            res@ == (BuilderModel { tls: Some((vaddr, data@, memsz, align)), ..self@ }),
    {
        let mut b = self;
        b.tls = Some(TlsSpec { vaddr, data, memsz, align });
        b
    }

    /// Adds a shared-library dependency (`DT_NEEDED` entry).
    pub fn add_dynamic_needed(self, name: &str) -> (res: Self)
        ensures
            res@ == (BuilderModel { needed: self@.needed.push(name@), ..self@ }),
    {
        let mut b = self;
        b.needed.push(name.to_owned());
        assert(b@.needed =~= self@.needed.push(name@));
        b
    }
}

impl ElfBuilder {
    /// Assembles the segments and sections of the object, before layout.
    fn assemble(&self) -> (res: ElfImage)
        ensures
            res.ident_spec() == built_ident(self@),
            res.header_spec() == built_header(self@),
            segment_views(res.segments_spec()) == built_segments(self@),
            section_views(res.sections_spec()) == built_sections(self@),
            res.runtime_base_spec() == 0,
    {
        let ghost m = self@;
        let ident = ElfIdent {
            class: self.class,
            data: self.endian,
            version: 1,
            os_abi: self.os_abi,
            abi_version: 0,
        };
        let mut segments: Vec<Segment> = Vec::new();
        let mut sections: Vec<Section> = Vec::new();
        sections.push(null_section());
        assert(section_views(sections@) =~= seq![null_section_view()]);
        let mut i: usize = 0;
        while i < self.loads.len()
            invariant
                i <= self.loads@.len(),
                m == self@,
                segment_views(segments@) == m.loads.take(i as int).map_values(
                    |l: LoadModel| load_segment(l),
                ),
            decreases self.loads@.len() - i,
        {
            let load = &self.loads[i];
            let filesz = load.data.len() as u64;
            let data = load.data.clone();
            assert(data@ =~= load.data@);
            let ghost before = segments@;
            segments.push(
                Segment {
                    header: ProgramHeader {
                        kind: SegmentType(SegmentType::LOAD),
                        flags: load.flags,
                        offset: 0,
                        vaddr: load.vaddr,
                        paddr: load.vaddr,
                        filesz,
                        memsz: filesz,
                        align: load.align,
                    },
                    data,
                },
            );
            proof {
                assert(m.loads.take(i + 1) =~= m.loads.take(i as int).push(m.loads[i as int]));
                assert(segment_views(segments@) =~= segment_views(before).push(segments@.last()@));
            }
            i = i + 1;
        }
        assert(m.loads.take(m.loads.len() as int) =~= m.loads);
        let ghost after_loads = segment_views(segments@);
        match &self.tls {
            Some(tls) => {
                let filesz = tls.data.len() as u64;
                let data = tls.data.clone();
                assert(data@ =~= tls.data@);
                segments.push(
                    Segment {
                        header: ProgramHeader {
                            kind: SegmentType(SegmentType::TLS),
                            flags: SegmentFlags(SegmentFlags::READ),
                            offset: 0,
                            vaddr: tls.vaddr,
                            paddr: tls.vaddr,
                            filesz,
                            memsz: tls.memsz,
                            align: tls.align,
                        },
                        data,
                    },
                );
                assert(segment_views(segments@) =~= after_loads.push(segments@.last()@));
            },
            None => {},
        }
        add_notes(&self.notes, self.endian, &mut segments, &mut sections);
        add_dynamic(&self.needed, self.endian, self.class, &mut segments, &mut sections);
        add_rela(&self.relocations, self.endian, self.class, &mut sections);
        proof {
            assert(self.notes@.map_values(
                |n: NoteSpec| note_segment((n.name@, n.note_type, n.descriptor@), self.endian),
            ) =~= m.notes.map_values(|n: NoteModel| note_segment(n, m.endian)));
            assert(self.notes@.map_values(
                |n: NoteSpec| note_section((n.name@, n.note_type, n.descriptor@), self.endian),
            ) =~= m.notes.map_values(|n: NoteModel| note_section(n, m.endian)));
            assert(segment_views(segments@) =~= built_segments(m));
            assert(section_views(sections@) =~= built_sections(m));
        }
        let header = ElfHeader {
            ident,
            kind: self.elf_type,
            machine: self.machine,
            version: 1,
            entry: self.entry,
            phoff: 0,
            shoff: 0,
            flags: self.flags,
            ehsize: 0,
            phentsize: 0,
            phnum: 0,
            shentsize: 0,
            shnum: 0,
            shstrndx: 0,
        };
        ElfImage::from_parts(ident, header, segments, sections, 0)
    }

    /// Builds the [`ElfImage`]: lays the object out in file layout and
    /// parses the bytes back.
    ///
    /// Fails when the layout is invalid.
    pub fn try_build(self) -> (res: Result<ElfImage>)
        ensures
            match built_bytes(self@) {
                None => res matches Err(e) && e.kind_spec() matches crate::error::ErrorKind::Generic(m)
                    && m@ == file_layout_error(
                    built_ident(self@),
                    built_header(self@),
                    built_segments(self@),
                    built_sections(self@),
                ),
                Some(b) => {
                    &&& res is Ok <==> file_layout_ok(b)
                    &&& res matches Ok(img) ==> file_image_matches(b, img)
                        && img.runtime_base_spec() == image_geometry(&img).base
                },
            },
    {
        let image = self.assemble();
        let bytes = match image.try_build() {
            Ok(b) => b,
            Err(e) => return Err(e),
        };
        ElfImage::parse(bytes.as_slice())
    }

    /// Builds the [`ElfImage`] of a builder whose object lays out and parses
    /// back.
    pub fn build(self) -> (res: ElfImage)
        requires
            builds(self@),
        ensures
            built_bytes(self@) matches Some(b) && file_image_matches(b, res)
                && res.runtime_base_spec() == image_geometry(&res).base,
    {
        let ghost m = self@;
        match self.try_build() {
            Ok(img) => img,
            Err(_) => {
                proof {
                    assert(false);
                }
                ElfBuilder::new().assemble()
            },
        }
    }
}

/// Appends `src` to `out`.
fn push_all(out: &mut Vec<u8>, src: &[u8])
    ensures
        final(out)@ == old(out)@ + src@,
{
    let mut k: usize = 0;
    while k < src.len()
        invariant
            k <= src@.len(),
            out@ == old(out)@ + src@.take(k as int),
        decreases src@.len() - k,
    {
        proof {
            assert(src@.take(k + 1) =~= src@.take(k as int).push(src@[k as int]));
        }
        out.push(src[k]);
        k = k + 1;
    }
    assert(src@.take(src@.len() as int) =~= src@);
}

/// Appends zero bytes until the length is a multiple of four.
fn pad_to_four(out: &mut Vec<u8>)
    ensures
        final(out)@ == old(out)@ + Seq::new(pad4(old(out)@.len() as int) as nat, |j: int| 0u8),
{
    let pad = (4 - out.len() % 4) % 4;
    let ghost base = out@;
    let mut k: usize = 0;
    while k < pad
        invariant
            k <= pad,
            pad == pad4(base.len() as int),
            out@ == base + Seq::new(k as nat, |j: int| 0u8),
        decreases pad - k,
    {
        out.push(0u8);
        k = k + 1;
        assert(out@ =~= base + Seq::new(k as nat, |j: int| 0u8));
    }
}

/// The name of the section that holds a note: `.note.` and the note's name.
fn note_section_name(name: &str) -> (res: String)
    ensures
        res@ == seq!['.', 'n', 'o', 't', 'e', '.'] + name@,
{
    let mut section_name = ".note.".to_owned();
    section_name.append(name);
    proof {
        reveal_strlit(".note.");
    }
    section_name
}

/// Creates the section at index zero.
fn null_section() -> (res: Section)
    ensures
        res@ == null_section_view(),
{
    Section {
        header: SectionHeader {
            name_index: 0,
            kind: SectionType(SectionType::NULL),
            flags: SectionFlags(0),
            addr: 0,
            offset: 0,
            size: 0,
            link: 0,
            info: 0,
            addralign: 0,
            entsize: 0,
        },
        name: String::new(),
        data: Vec::new(),
    }
}

/// Serializes one note record.
fn serialize_note(spec: &NoteSpec, endian: Endian) -> (res: Vec<u8>)
    ensures
        res@ == note_bytes((spec.name@, spec.note_type, spec.descriptor@), endian),
{
    let name_bytes = spec.name.as_str().as_bytes();
    let namesz: u32 = if name_bytes.len() >= 0xffff_ffff {
        0
    } else {
        (name_bytes.len() + 1) as u32
    };
    let descsz: u32 = if spec.descriptor.len() > 0xffff_ffff {
        0
    } else {
        spec.descriptor.len() as u32
    };
    let mut out: Vec<u8> = Vec::new();
    push_all(&mut out, &endian.u32_bytes(namesz));
    push_all(&mut out, &endian.u32_bytes(descsz));
    push_all(&mut out, &endian.u32_bytes(spec.note_type));
    push_all(&mut out, name_bytes);
    out.push(0u8);
    pad_to_four(&mut out);
    push_all(&mut out, spec.descriptor.as_slice());
    pad_to_four(&mut out);
    out
}

/// Serializes `RELA` entries for `class`.
fn serialize_rela(entries: &Vec<RelocationEntry>, endian: Endian, class: ElfClass) -> (res: Vec<u8>)
    ensures
        res@ == rela_bytes(entries@, endian, class),
{
    let mut out: Vec<u8> = Vec::new();
    let mut i: usize = 0;
    while i < entries.len()
        invariant
            i <= entries@.len(),
            out@ == rela_bytes(entries@.take(i as int), endian, class),
        decreases entries@.len() - i,
    {
        proof {
            assert(entries@.take(i + 1).drop_last() =~= entries@.take(i as int));
        }
        let entry = entries[i];
        let addend: i64 = match entry.addend {
            Some(a) => a,
            None => 0,
        };
        let ghost before = out@;
        match class {
            ElfClass::Elf64 => {
                push_all(&mut out, &endian.u64_bytes(entry.offset));
                let info = ((entry.symbol as u64) << 32u64) | (entry.r_type as u64);
                push_all(&mut out, &endian.u64_bytes(info));
                push_all(&mut out, &endian.i64_bytes(addend));
            },
            ElfClass::Elf32 => {
                push_all(&mut out, &endian.u32_bytes(crate::low32(entry.offset)));
                let info = (entry.symbol << 8u32) | (entry.r_type & 0xffu32);
                push_all(&mut out, &endian.u32_bytes(info));
                let a32: i32 = if addend >= -2147483648 && addend <= 2147483647 {
                    addend as i32
                } else {
                    0
                };
                push_all(&mut out, &endian.u32_bytes(a32 as u32));
            },
        }
        assert(out@ =~= before + rela_entry_bytes(entry, endian, class));
        i = i + 1;
    }
    assert(entries@.take(entries@.len() as int) =~= entries@);
    out
}

/// Appends one dynamic entry for `class`.
fn push_dyn_entry(out: &mut Vec<u8>, tag: u64, value: u64, endian: Endian, class: ElfClass)
    ensures
        final(out)@ == old(out)@ + dyn_entry_bytes(tag, value, endian, class),
{
    match class {
        ElfClass::Elf64 => {
            push_all(out, &endian.u64_bytes(tag));
            push_all(out, &endian.u64_bytes(value));
        },
        ElfClass::Elf32 => {
            push_all(out, &endian.u32_bytes(crate::low32(tag)));
            push_all(out, &endian.u32_bytes(crate::low32(value)));
        },
    }
    assert(out@ =~= old(out)@ + dyn_entry_bytes(tag, value, endian, class));
}

/// Adds one `PT_NOTE` segment and one `SHT_NOTE` section per note.
fn add_notes(
    notes: &Vec<NoteSpec>,
    endian: Endian,
    segments: &mut Vec<Segment>,
    sections: &mut Vec<Section>,
)
    ensures
        segment_views(final(segments)@) == segment_views(old(segments)@) + notes@.map_values(
            |n: NoteSpec| note_segment((n.name@, n.note_type, n.descriptor@), endian),
        ),
        section_views(final(sections)@) == section_views(old(sections)@) + notes@.map_values(
            |n: NoteSpec| note_section((n.name@, n.note_type, n.descriptor@), endian),
        ),
{
    let ghost segs0 = segment_views(segments@);
    let ghost secs0 = section_views(sections@);
    let mut i: usize = 0;
    while i < notes.len()
        invariant
            i <= notes@.len(),
            segment_views(segments@) == segs0 + notes@.take(i as int).map_values(
                |n: NoteSpec| note_segment((n.name@, n.note_type, n.descriptor@), endian),
            ),
            section_views(sections@) == secs0 + notes@.take(i as int).map_values(
                |n: NoteSpec| note_section((n.name@, n.note_type, n.descriptor@), endian),
            ),
        decreases notes@.len() - i,
    {
        let note = &notes[i];
        let bytes = serialize_note(note, endian);
        let len = bytes.len() as u64;
        let copy = bytes.clone();
        assert(copy@ =~= bytes@);
        let ghost segs_before = segments@;
        let ghost secs_before = sections@;
        segments.push(
            Segment {
                header: ProgramHeader {
                    kind: SegmentType(SegmentType::NOTE),
                    flags: SegmentFlags(SegmentFlags::READ),
                    offset: 0,
                    vaddr: 0,
                    paddr: 0,
                    filesz: len,
                    memsz: len,
                    align: 4,
                },
                data: copy,
            },
        );
        sections.push(
            Section {
                header: SectionHeader {
                    name_index: 0,
                    kind: SectionType(SectionType::NOTE),
                    flags: SectionFlags(0),
                    addr: 0,
                    offset: 0,
                    size: len,
                    link: 0,
                    info: 0,
                    addralign: 4,
                    entsize: 0,
                },
                name: note_section_name(note.name.as_str()),
                data: bytes,
            },
        );
        proof {
            assert(notes@.take(i + 1) =~= notes@.take(i as int).push(notes@[i as int]));
            assert(segment_views(segments@) =~= segment_views(segs_before).push(segments@.last()@));
            assert(section_views(sections@) =~= section_views(secs_before).push(sections@.last()@));
        }
        i = i + 1;
    }
    assert(notes@.take(notes@.len() as int) =~= notes@);
}

/// Adds the `.rela.dyn` section when there are relocations.
fn add_rela(
    relocations: &Vec<RelocationEntry>,
    endian: Endian,
    class: ElfClass,
    sections: &mut Vec<Section>,
)
    ensures
        section_views(final(sections)@) == section_views(old(sections)@) + if relocations@.len()
            == 0 {
            Seq::empty()
        } else {
            seq![rela_section(relocations@, endian, class)]
        },
{
    if relocations.len() == 0 {
        assert(section_views(sections@) =~= section_views(sections@) + Seq::empty());
        return;
    }
    let data = serialize_rela(relocations, endian, class);
    let len = data.len() as u64;
    let entsize: u64 = match class {
        ElfClass::Elf64 => 24,
        ElfClass::Elf32 => 12,
    };
    let ghost before = sections@;
    sections.push(
        Section {
            header: SectionHeader {
                name_index: 0,
                kind: SectionType(SectionType::RELA),
                flags: SectionFlags(0),
                addr: 0,
                offset: 0,
                size: len,
                link: 0,
                info: 0,
                addralign: 8,
                entsize,
            },
            name: ".rela.dyn".to_owned(),
            data,
        },
    );
    assert(section_views(sections@) =~= section_views(before) + seq![
        rela_section(relocations@, endian, class),
    ]);
}

/// Adds the `PT_DYNAMIC` segment and the `.dynstr` and `.dynamic` sections
/// when there are dependencies.
fn add_dynamic(
    needed: &Vec<String>,
    endian: Endian,
    class: ElfClass,
    segments: &mut Vec<Segment>,
    sections: &mut Vec<Section>,
)
    ensures
        ({
            let names = needed@.map_values(|s: String| s@);
            &&& segment_views(final(segments)@) == segment_views(old(segments)@) + if names.len()
                == 0 {
                Seq::empty()
            } else {
                seq![dynamic_segment(names, endian, class)]
            }
            &&& section_views(final(sections)@) == section_views(old(sections)@) + if names.len()
                == 0 {
                Seq::empty()
            } else {
                dynamic_sections(names, endian, class)
            }
        }),
{
    let ghost names = needed@.map_values(|s: String| s@);
    if needed.len() == 0 {
        assert(segment_views(segments@) =~= segment_views(segments@) + Seq::empty());
        assert(section_views(sections@) =~= section_views(sections@) + Seq::empty());
        return;
    }
    // The string table: a leading NUL, then each name NUL-terminated.
    let mut dynstr: Vec<u8> = Vec::new();
    dynstr.push(0u8);
    let mut name_offsets: Vec<usize> = Vec::new();
    let mut i: usize = 0;
    while i < needed.len()
        invariant
            i <= needed@.len(),
            names == needed@.map_values(|s: String| s@),
            dynstr@ == dynstr_prefix(names, i as int),
            name_offsets@.len() == i,
            forall|j: int| 0 <= j < i ==> #[trigger] name_offsets@[j] == dynstr_prefix(names, j).len(),
        decreases needed@.len() - i,
    {
        name_offsets.push(dynstr.len());
        push_all(&mut dynstr, needed[i].as_str().as_bytes());
        dynstr.push(0u8);
        assert(dynstr@ =~= dynstr_prefix(names, i + 1));
        i = i + 1;
    }
    let dynstr_len = dynstr.len() as u64;
    // The dynamic array.
    let mut dyn_data: Vec<u8> = Vec::new();
    let mut k: usize = 0;
    while k < name_offsets.len()
        invariant
            k <= name_offsets@.len(),
            name_offsets@.len() == names.len(),
            forall|j: int| 0 <= j < names.len() ==> #[trigger] name_offsets@[j] == dynstr_prefix(names, j).len(),
            dyn_data@ == needed_entries(names, k as int, endian, class),
        decreases name_offsets@.len() - k,
    {
        push_dyn_entry(&mut dyn_data, DynTag::NEEDED, name_offsets[k] as u64, endian, class);
        k = k + 1;
    }
    push_dyn_entry(&mut dyn_data, DynTag::STRTAB, 0, endian, class);
    push_dyn_entry(&mut dyn_data, DynTag::STRSZ, dynstr_len, endian, class);
    push_dyn_entry(&mut dyn_data, DynTag::NULL, 0, endian, class);
    assert(dyn_data@ =~= dynamic_bytes(names, endian, class));
    let dyn_len = dyn_data.len() as u64;
    let dyn_entsize: u64 = match class {
        ElfClass::Elf64 => 16,
        ElfClass::Elf32 => 8,
    };
    let copy = dyn_data.clone();
    assert(copy@ =~= dyn_data@);
    let ghost segs_before = segments@;
    segments.push(
        Segment {
            header: ProgramHeader {
                kind: SegmentType(SegmentType::DYNAMIC),
                flags: SegmentFlags(SegmentFlags::READ | SegmentFlags::WRITE),
                offset: 0,
                vaddr: 0,
                paddr: 0,
                filesz: dyn_len,
                memsz: dyn_len,
                align: 8,
            },
            data: copy,
        },
    );
    let ghost secs_before = sections@;
    sections.push(
        Section {
            header: SectionHeader {
                name_index: 0,
                kind: SectionType(SectionType::STRTAB),
                flags: SectionFlags(SectionFlags::ALLOC),
                addr: 0,
                offset: 0,
                size: dynstr_len,
                link: 0,
                info: 0,
                addralign: 1,
                entsize: 0,
            },
            name: ".dynstr".to_owned(),
            data: dynstr,
        },
    );
    sections.push(
        Section {
            header: SectionHeader {
                name_index: 0,
                kind: SectionType(SectionType::DYNAMIC),
                flags: SectionFlags(SectionFlags::ALLOC | SectionFlags::WRITE),
                addr: 0,
                offset: 0,
                size: dyn_len,
                link: 0,
                info: 0,
                addralign: 8,
                entsize: dyn_entsize,
            },
            name: ".dynamic".to_owned(),
            data: dyn_data,
        },
    );
    assert(segment_views(segments@) =~= segment_views(segs_before) + seq![
        dynamic_segment(names, endian, class),
    ]);
    assert(section_views(sections@) =~= section_views(secs_before) + dynamic_sections(
        names,
        endian,
        class,
    ));
}

} // verus!

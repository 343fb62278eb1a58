//! Address conversion and derived tables for an [`ElfImage`].
//!
//! ELF has no relative virtual address. This module uses the image-relative
//! offset `ioff = vaddr - image_base` as the uniform addressing model.

use vstd::prelude::*;

use crate::dynamic::{dyn_entries_of, needed_of, DynamicTable};
use crate::error::{ErrorKind, Result};
use crate::header::Machine;
use crate::notes::{notes_from, notes_view, Note, NoteModel, NAME_GNU, NT_GNU_BUILD_ID};
use crate::program::{header_covers, sat_add, Segment, SegmentType};
use crate::reloc::{reloc_entry_size, relocs_of, RelocationEntry, RelocationSection};
use crate::section::{Section, SectionType};
use crate::strtab::StringTable;
use crate::symbol::{symbol_entry_size, symbols_of, SymbolModel, SymbolTable};
use crate::tls::{tls_of, TlsInfo};

use super::edit::load_covers_pred;
use super::{first_match, geometry, image_geometry, lemma_first_match, load_records, ElfImage};

verus! {

/// Whether a segment is loadable and its file bytes cover `vaddr`.
pub open spec fn load_file_covers(s: Segment, vaddr: u64) -> bool {
    s.header.kind.0 == SegmentType::LOAD && vaddr >= s.header.vaddr && vaddr < sat_add(
        s.header.vaddr,
        s.header.filesz,
    )
}

/// The predicate of segments whose file bytes cover `vaddr`.
pub open spec fn file_covers_pred(vaddr: u64) -> spec_fn(Segment) -> bool {
    |s: Segment| load_file_covers(s, vaddr)
}

/// The predicate of segments whose memory range covers `vaddr`.
pub open spec fn covers_pred(vaddr: u64) -> spec_fn(Segment) -> bool {
    |s: Segment| header_covers(s.header, vaddr)
}

/// The predicate of segments of type `kind`.
pub open spec fn seg_type_pred(kind: u32) -> spec_fn(Segment) -> bool {
    |s: Segment| s.header.kind.0 == kind
}

/// The predicate of sections named `name`.
pub open spec fn named_pred(name: Seq<char>) -> spec_fn(Section) -> bool {
    |s: Section| s.name@ == name
}

/// The index of the first segment whose memory range covers `vaddr`.
/// The index of the first loadable segment whose memory range covers
/// `vaddr`, or the number of segments when none does.
pub open spec fn load_covering_segment(segs: Seq<Segment>, vaddr: u64) -> int {
    first_match(segs, load_covers_pred(vaddr), 0)
}

pub open spec fn covering_segment(segs: Seq<Segment>, vaddr: u64) -> int {
    first_match(segs, covers_pred(vaddr), 0)
}

/// The index of the first segment of type `kind`.
pub open spec fn segment_of_type(segs: Seq<Segment>, kind: u32) -> int {
    first_match(segs, seg_type_pred(kind), 0)
}

/// The index of the first section named `name`.
pub open spec fn section_named(secs: Seq<Section>, name: Seq<char>) -> int {
    first_match(secs, named_pred(name), 0)
}

/// The `len` bytes a loader sees at `start` of a segment with file bytes
/// `data`: the file bytes, then zeros.
pub open spec fn zero_extended(data: Seq<u8>, start: int, len: int) -> Seq<u8> {
    Seq::new(len as nat, |j: int| if start + j < data.len() { data[start + j] } else { 0u8 })
}

/// The bytes `read_at_vaddr` returns for `vaddr`.
pub open spec fn read_at_vaddr_spec(segs: Seq<Segment>, vaddr: u64, len: int) -> Option<Seq<u8>> {
    let i = covering_segment(segs, vaddr);
    if i >= segs.len() || vaddr - segs[i].header.vaddr > usize::MAX {
        None
    } else {
        Some(zero_extended(segs[i].data@, vaddr - segs[i].header.vaddr, len))
    }
}

/// The relocation tables of a list of sections, in section order, as their
/// forms and entries; `None` when one of them is not a whole number of
/// entries.
pub open spec fn relocations_spec(secs: Seq<Section>, e: crate::ident::Endian, class: crate::ident::ElfClass) -> Option<Seq<(bool, Seq<RelocationEntry>)>>
    decreases secs.len(),
{
    if secs.len() == 0 {
        Some(Seq::empty())
    } else {
        match relocations_spec(secs.drop_last(), e, class) {
            None => None,
            Some(rest) => {
                let s = secs.last();
                let kind = s.header.kind.0;
                if kind == SectionType::RELA || kind == SectionType::REL {
                    let is_rela = kind == SectionType::RELA;
                    if (s.data@.len() as int) % reloc_entry_size(class, is_rela) == 0 {
                        Some(rest.push((is_rela, relocs_of(s.data@, is_rela, e, class))))
                    } else {
                        None
                    }
                } else {
                    Some(rest)
                }
            },
        }
    }
}

/// Once a prefix of the sections holds a malformed relocation table, so
/// do all the sections.
pub proof fn lemma_relocations_prefix_none(
    secs: Seq<Section>,
    k: int,
    e: crate::ident::Endian,
    class: crate::ident::ElfClass,
)
    requires
        0 <= k <= secs.len(),
        relocations_spec(secs.take(k), e, class) is None,
    ensures
        relocations_spec(secs, e, class) is None,
    decreases secs.len() - k,
{
    if k < secs.len() {
        assert(secs.take(k + 1).drop_last() =~= secs.take(k));
        lemma_relocations_prefix_none(secs, k + 1, e, class);
    } else {
        assert(secs.take(k) =~= secs);
    }
}

/// The sections of type `SHT_RELA` or `SHT_REL`, in section order.
pub open spec fn reloc_sections(secs: Seq<Section>) -> Seq<Section> {
    secs.filter(
        |s: Section| s.header.kind.0 == SectionType::RELA || s.header.kind.0 == SectionType::REL,
    )
}

/// The relocation tables are those of the `SHT_RELA` and `SHT_REL`
/// sections, one per such section and in section order. A table is in the
/// `RELA` form exactly when its section's type is `SHT_RELA`, and holds the
/// entries that the section's bytes give when read in that form. The tables
/// come back exactly when each such section holds a whole number of entries
/// of its form.
pub proof fn lemma_relocation_tables(
    secs: Seq<Section>,
    e: crate::ident::Endian,
    class: crate::ident::ElfClass,
)
    ensures
        relocations_spec(secs, e, class) is Some <==> (forall|k: int|
            0 <= k < reloc_sections(secs).len() ==> ((#[trigger] reloc_sections(secs)[k]).data@.len() as int)
                % reloc_entry_size(class, reloc_sections(secs)[k].header.kind.0 == SectionType::RELA)
                == 0),
        relocations_spec(secs, e, class) matches Some(t) ==> {
            &&& t.len() == reloc_sections(secs).len()
            &&& forall|k: int|
                0 <= k < t.len() ==> #[trigger] t[k] == (
                    reloc_sections(secs)[k].header.kind.0 == SectionType::RELA,
                    relocs_of(
                        reloc_sections(secs)[k].data@,
                        reloc_sections(secs)[k].header.kind.0 == SectionType::RELA,
                        e,
                        class,
                    ),
                )
        },
    decreases secs.len(),
{
    reveal(Seq::filter);
    if secs.len() > 0 {
        let d = secs.drop_last();
        lemma_relocation_tables(d, e, class);
        let rs = reloc_sections(secs);
        let rd = reloc_sections(d);
        let s = secs.last();
        let kind = s.header.kind.0;
        if kind == SectionType::RELA || kind == SectionType::REL {
            assert(rs == rd.push(s));
            let is_rela = kind == SectionType::RELA;
            if relocations_spec(d, e, class) is None {
                let k0 = choose|k: int|
                    0 <= k < rd.len() && !(((#[trigger] rd[k]).data@.len() as int) % reloc_entry_size(
                        class,
                        rd[k].header.kind.0 == SectionType::RELA,
                    ) == 0);
                assert(rs[k0] == rd[k0]);
            } else if (s.data@.len() as int) % reloc_entry_size(class, is_rela) != 0 {
                assert(rs[rd.len() as int] == s);
            } else {
                assert forall|k: int| 0 <= k < rs.len() implies ((#[trigger] rs[k]).data@.len() as int)
                    % reloc_entry_size(class, rs[k].header.kind.0 == SectionType::RELA) == 0 by {
                    if k < rd.len() {
                        assert(rs[k] == rd[k]);
                    }
                }
                let t = relocations_spec(secs, e, class)->0;
                let rest = relocations_spec(d, e, class)->0;
                assert forall|k: int| 0 <= k < t.len() implies #[trigger] t[k] == (
                    rs[k].header.kind.0 == SectionType::RELA,
                    relocs_of(rs[k].data@, rs[k].header.kind.0 == SectionType::RELA, e, class),
                ) by {
                    if k < rest.len() {
                        assert(t[k] == rest[k]);
                        assert(rs[k] == rd[k]);
                    }
                }
            }
        } else {
            assert(rs == rd);
        }
    }
}

/// The notes of the note-typed parts of an image, in order; `None` when one
/// of them holds a note whose name is not valid UTF-8.
pub open spec fn notes_of_parts(parts: Seq<Seq<u8>>, e: crate::ident::Endian) -> Option<Seq<NoteModel>>
    decreases parts.len(),
{
    if parts.len() == 0 {
        Some(Seq::empty())
    } else {
        match notes_of_parts(parts.drop_last(), e) {
            None => None,
            Some(rest) => match notes_from(parts.last(), e, 0) {
                Ok(n) => Some(rest + n),
                Err(()) => None,
            },
        }
    }
}

/// The bytes of every `PT_NOTE` segment, in order.
pub open spec fn segment_note_parts(segs: Seq<Segment>) -> Seq<Seq<u8>>
    decreases segs.len(),
{
    if segs.len() == 0 {
        Seq::empty()
    } else {
        let rest = segment_note_parts(segs.drop_last());
        if segs.last().header.kind.0 == SegmentType::NOTE {
            rest.push(segs.last().data@)
        } else {
            rest
        }
    }
}

/// The notes of an image: those of its `PT_NOTE` segments, in order;
/// `None` when one holds a note whose name is not valid UTF-8.
pub open spec fn notes_spec(img: &ElfImage) -> Option<Seq<NoteModel>> {
    notes_of_parts(segment_note_parts(img.segments_spec()), img.ident_spec().data)
}

/// Once some parts hold a malformed note, so do those parts followed by more.
pub proof fn lemma_notes_of_parts_none(p: Seq<Seq<u8>>, q: Seq<Seq<u8>>, e: crate::ident::Endian)
    requires
        notes_of_parts(p, e) is None,
    ensures
        notes_of_parts(p + q, e) is None,
    decreases q.len(),
{
    if q.len() == 0 {
        assert(p + q =~= p);
    } else {
        lemma_notes_of_parts_none(p, q.drop_last(), e);
        assert((p + q).drop_last() =~= p + q.drop_last());
    }
}

/// The note parts of segments split at `k`.
pub proof fn lemma_segment_note_parts_split(segs: Seq<Segment>, k: int)
    requires
        0 <= k <= segs.len(),
    ensures
        segment_note_parts(segs) == segment_note_parts(segs.take(k)) + segment_note_parts(
            segs.skip(k),
        ),
    decreases segs.len(),
{
    if segs.len() == k {
        assert(segs.take(k) =~= segs);
        assert(segs.skip(k) =~= Seq::<Segment>::empty());
        assert(segment_note_parts(segs) + Seq::<Seq<u8>>::empty() =~= segment_note_parts(segs));
    } else {
        lemma_segment_note_parts_split(segs.drop_last(), k);
        assert(segs.drop_last().take(k) =~= segs.take(k));
        assert(segs.skip(k).drop_last() =~= segs.drop_last().skip(k));
        assert(segs.skip(k).last() == segs.last());
        let a = segment_note_parts(segs.take(k));
        let b = segment_note_parts(segs.drop_last().skip(k));
        assert((a + b).push(segs.last().data@) =~= a + b.push(segs.last().data@));
    }
}

/// The predicate of GNU build-id notes.
pub open spec fn build_id_pred() -> spec_fn(NoteModel) -> bool {
    |n: NoteModel| n.0 == NAME_GNU@ && n.1 == NT_GNU_BUILD_ID
}

/// The descriptor of the first GNU build-id note.
pub open spec fn build_id_of(notes: Seq<NoteModel>) -> Option<Seq<u8>> {
    let i = first_match(notes, build_id_pred(), 0);
    if i < notes.len() {
        Some(notes[i].2)
    } else {
        None
    }
}

/// The symbols of the section named `table`, named through the section
/// named `strings`: empty when there is no such table, `None` when the
/// table is not a whole number of entries.
pub open spec fn symbols_from_spec(img: &ElfImage, table: Seq<char>, strings: Seq<char>) -> Option<Seq<SymbolModel>> {
    let secs = img.sections_spec();
    let t = section_named(secs, table);
    let s = section_named(secs, strings);
    let strtab = if s < secs.len() { secs[s].data@ } else { Seq::empty() };
    let class = img.ident_spec().class;
    if t >= secs.len() {
        Some(Seq::empty())
    } else if (secs[t].data@.len() as int) % symbol_entry_size(class) != 0 {
        None
    } else {
        Some(symbols_of(secs[t].data@, strtab, img.ident_spec().data, class))
    }
}

/// The dynamic table entries of an image: `None` when there is no dynamic
/// segment, `Some(Err(()))` when its bytes are not whole entries.
pub open spec fn dynamic_spec(img: &ElfImage) -> Option<core::result::Result<Seq<crate::dynamic::DynamicEntry>, ()>> {
    let segs = img.segments_spec();
    let i = segment_of_type(segs, SegmentType::DYNAMIC);
    if i >= segs.len() {
        None
    } else if (segs[i].data@.len() as int) % crate::dynamic::dyn_entry_size(img.ident_spec().class) != 0 {
        Some(Err(()))
    } else {
        Some(Ok(dyn_entries_of(segs[i].data@, img.ident_spec().data, img.ident_spec().class)))
    }
}

impl ElfImage {
    /// Returns the raw `e_entry` value.
    ///
    /// The value is a preferred-base virtual address, not an offset.
    pub fn entry_point(&self) -> (res: u64)
        ensures
            res == self.header_spec().entry,
    {
        self.header.entry
    }

    /// Tests whether the image uses the 64-bit ELF class.
    pub fn is_64bit(&self) -> (res: bool)
        ensures
            res == (self.ident_spec().class == crate::ident::ElfClass::Elf64),
    {
        self.ident.class.is_64bit()
    }

    /// Returns the machine architecture.
    pub fn machine(&self) -> (res: Machine)
        ensures
            res == self.header_spec().machine,
    {
        self.header.machine
    }

    /// Returns the preferred image base.
    ///
    /// The base is the minimum `PT_LOAD` virtual address rounded down to the
    /// segment page size. Position-independent objects normally report zero.
    pub fn image_base(&self) -> (res: u64)
        ensures
            res == image_geometry(self).base,
    {
        geometry(&load_records(&self.segments)).base
    }

    /// Returns the mapped size of the image.
    ///
    /// The span is the highest `PT_LOAD` end rounded up to the page size,
    /// relative to the preferred image base.
    pub fn image_span(&self) -> (res: u64)
        ensures
            res == image_geometry(self).span,
    {
        geometry(&load_records(&self.segments)).span
    }

    /// Returns the base address this image instance uses.
    pub fn runtime_image_base(&self) -> (res: u64)
        ensures
            res == self.runtime_base_spec(),
    {
        self.runtime_base
    }

    /// Sets the base address this image instance uses.
    pub fn set_runtime_image_base(&mut self, base: u64)
        ensures
            final(self).runtime_base_spec() == base,
            final(self).ident_spec() == old(self).ident_spec(),
            final(self).header_spec() == old(self).header_spec(),
            final(self).segments_spec() == old(self).segments_spec(),
            final(self).sections_spec() == old(self).sections_spec(),
    {
        self.runtime_base = base;
    }

    /// Converts an image-relative offset to its serialized file offset.
    ///
    /// Returns `None` when the offset has no file-backed byte.
    pub fn ioff_to_offset(&self, ioff: u64) -> (res: Option<u64>)
        ensures
            ({
                let base = image_geometry(self).base;
                let segs = self.segments_spec();
                let vaddr = base + ioff;
                let i = first_match(segs, file_covers_pred(vaddr as u64), 0);
                if vaddr > u64::MAX || i >= segs.len() || segs[i].header.offset + (vaddr
                    - segs[i].header.vaddr) > u64::MAX {
                    res is None
                } else {
                    res == Some((segs[i].header.offset + (vaddr - segs[i].header.vaddr)) as u64)
                }
            }),
    {
        let vaddr = match self.image_base().checked_add(ioff) {
            Some(v) => v,
            None => return None,
        };
        let ghost p = file_covers_pred(vaddr);
        let mut i: usize = 0;
        while i < self.segments.len()
            invariant
                p == file_covers_pred(vaddr),
                vaddr == image_geometry(self).base + ioff,
                i <= self.segments@.len(),
                first_match(self.segments@, p, 0) == first_match(self.segments@, p, i as int),
            decreases self.segments@.len() - i,
        {
            let h = self.segments[i].header;
            if h.kind.0 == SegmentType::LOAD && vaddr >= h.vaddr && vaddr < h.vaddr.saturating_add(
                h.filesz,
            ) {
                assert(p(self.segments@[i as int]));
                assert(first_match(self.segments@, p, i as int) == i);
                return h.offset.checked_add(vaddr - h.vaddr);
            }
            i = i + 1;
        }
        None
    }

    fn load_covering_index(&self, vaddr: u64) -> (res: usize)
        ensures
            res == load_covering_segment(self.segments_spec(), vaddr),
            res <= self.segments_spec().len(),
            res < self.segments_spec().len() ==> header_covers(self.segments_spec()[res as int].header, vaddr),
    {
        let ghost p = load_covers_pred(vaddr);
        proof {
            lemma_first_match(self.segments@, p, 0);
        }
        let mut i: usize = 0;
        while i < self.segments.len()
            invariant
                p == load_covers_pred(vaddr),
                i <= self.segments@.len(),
                first_match(self.segments@, p, 0) == first_match(self.segments@, p, i as int),
            decreases self.segments@.len() - i,
        {
            if self.segments[i].header.kind.0 == SegmentType::LOAD && self.segments[i].contains_vaddr(vaddr) {
                return i;
            }
            i = i + 1;
        }
        i
    }

    fn covering_index(&self, vaddr: u64) -> (res: usize)
        ensures
            res == covering_segment(self.segments_spec(), vaddr),
            res <= self.segments_spec().len(),
            res < self.segments_spec().len() ==> header_covers(self.segments_spec()[res as int].header, vaddr),
    {
        let ghost p = covers_pred(vaddr);
        proof {
            lemma_first_match(self.segments@, p, 0);
        }
        let mut i: usize = 0;
        while i < self.segments.len()
            invariant
                p == covers_pred(vaddr),
                i <= self.segments@.len(),
                first_match(self.segments@, p, 0) == first_match(self.segments@, p, i as int),
            decreases self.segments@.len() - i,
        {
            if self.segments[i].contains_vaddr(vaddr) {
                return i;
            }
            i = i + 1;
        }
        i
    }

    /// Returns the loadable segment that covers an image-relative offset.
    pub fn segment_by_ioff(&self, ioff: u64) -> (res: Option<&Segment>)
        ensures
            ({
                let vaddr = image_geometry(self).base + ioff;
                let segs = self.segments_spec();
                if vaddr > u64::MAX || load_covering_segment(segs, vaddr as u64) >= segs.len() {
                    res is None
                } else {
                    res == Some(&segs[load_covering_segment(segs, vaddr as u64)])
                }
            }),
    {
        let vaddr = match self.image_base().checked_add(ioff) {
            Some(v) => v,
            None => return None,
        };
        let i = self.load_covering_index(vaddr);
        if i < self.segments.len() {
            Some(&self.segments[i])
        } else {
            None
        }
    }

    /// Reads up to `len` bytes at an image-relative offset into owned storage.
    ///
    /// Bytes beyond the segment's file data but inside its memory size read as
    /// zero, matching loader semantics.
    pub fn read_ioff(&self, ioff: u64, len: usize) -> (res: Option<Vec<u8>>)
        ensures
            ({
                let vaddr = image_geometry(self).base + ioff;
                if vaddr > u64::MAX {
                    res is None
                } else {
                    match read_at_vaddr_spec(self.segments_spec(), vaddr as u64, len as int) {
                        Some(b) => res matches Some(v) && v@ == b,
                        None => res is None,
                    }
                }
            }),
    {
        let vaddr = match self.image_base().checked_add(ioff) {
            Some(v) => v,
            None => return None,
        };
        self.read_at_vaddr(vaddr, len)
    }

    /// Returns up to `len` bytes at an image-relative offset.
    ///
    /// The slice stops at the segment's file data. Zero-filled tail bytes have
    /// no slice representation; use [`ElfImage::read_ioff`] for them.
    pub fn read_at_ioff(&self, ioff: u64, len: usize) -> (res: Option<&[u8]>)
        ensures
            ({
                let vaddr = image_geometry(self).base + ioff;
                let segs = self.segments_spec();
                let i = load_covering_segment(segs, vaddr as u64);
                if vaddr > u64::MAX || i >= segs.len() {
                    res is None
                } else {
                    let data = segs[i].data@;
                    let start = vaddr - segs[i].header.vaddr;
                    if start > usize::MAX || start >= data.len() {
                        res is None
                    } else {
                        let n = if len <= data.len() - start {
                            len as int
                        } else {
                            data.len() - start
                        };
                        res matches Some(s) && s@ == data.subrange(start, start + n)
                    }
                }
            }),
    {
        let segment = match self.segment_by_ioff(ioff) {
            Some(s) => s,
            None => return None,
        };
        let vaddr = self.image_base() + ioff;
        proof {
            lemma_first_match(self.segments@, load_covers_pred(vaddr), 0);
        }
        segment.data_at_vaddr(vaddr, len)
    }

    /// Tests whether an image-relative range lies inside the image.
    pub fn contains_ioff_range(&self, ioff: u64, len: u64) -> (res: bool)
        ensures
            res == (ioff + len <= u64::MAX && ioff + len <= image_geometry(self).span),
    {
        match ioff.checked_add(len) {
            Some(end) => end <= self.image_span(),
            None => false,
        }
    }

    /// Parses the dynamic table from the `PT_DYNAMIC` segment.
    ///
    /// Returns `None` when the image declares no dynamic segment.
    pub fn dynamic(&self) -> (res: Result<Option<DynamicTable>>)
        ensures
            match dynamic_spec(self) {
                None => res matches Ok(None),
                Some(Err(())) => res matches Err(e) && e.kind_spec() matches ErrorKind::InvalidSection(m)
                    && m@ == "dynamic table is not a whole number of entries"@,
                Some(Ok(entries)) => res matches Ok(Some(t)) && t.entries@ == entries,
            },
    {
        let ghost p = seg_type_pred(SegmentType::DYNAMIC);
        let mut i: usize = 0;
        while i < self.segments.len()
            invariant
                p == seg_type_pred(SegmentType::DYNAMIC),
                i <= self.segments@.len(),
                first_match(self.segments@, p, 0) == first_match(self.segments@, p, i as int),
            decreases self.segments@.len() - i,
        {
            if self.segments[i].header.kind.0 == SegmentType::DYNAMIC {
                return match DynamicTable::parse(
                    self.segments[i].data.as_slice(),
                    self.ident.data,
                    self.ident.class,
                ) {
                    Ok(table) => Ok(Some(table)),
                    Err(e) => Err(e),
                };
            }
            i = i + 1;
        }
        Ok(None)
    }

    /// Returns the first section with `name`.
    pub fn section_by_name(&self, name: &str) -> (res: Option<&Section>)
        ensures
            ({
                let secs = self.sections_spec();
                let i = section_named(secs, name@);
                if i < secs.len() {
                    res == Some(&secs[i])
                } else {
                    res is None
                }
            }),
    {
        let target = name.to_owned();
        let ghost p = named_pred(name@);
        let mut i: usize = 0;
        while i < self.sections.len()
            invariant
                p == named_pred(name@),
                i <= self.sections@.len(),
                target@ == name@,
                first_match(self.sections@, p, 0) == first_match(self.sections@, p, i as int),
            decreases self.sections@.len() - i,
        {
            if self.sections[i].name == target {
                return Some(&self.sections[i]);
            }
            i = i + 1;
        }
        None
    }

    fn symbols_from(&self, table: &str, strings: &str) -> (res: Result<SymbolTable>)
        ensures
            match symbols_from_spec(self, table@, strings@) {
                Some(s) => res matches Ok(t) && t@ == s,
                None => res is Err,
            },
    {
        let section = match self.section_by_name(table) {
            Some(s) => s,
            None => return Ok(SymbolTable::default()),
        };
        let empty: Vec<u8> = Vec::new();
        let strtab_bytes = match self.section_by_name(strings) {
            Some(s) => s.data.as_slice(),
            None => empty.as_slice(),
        };
        let strtab = StringTable::new(strtab_bytes);
        SymbolTable::parse(section.data.as_slice(), strtab, self.ident.data, self.ident.class)
    }

    /// Parses the dynamic symbol table from `.dynsym` and `.dynstr`.
    ///
    /// Returns an empty table when the sections are absent.
    pub fn dynamic_symbols(&self) -> (res: Result<SymbolTable>)
        ensures
            match symbols_from_spec(self, ".dynsym"@, ".dynstr"@) {
                Some(s) => res matches Ok(t) && t@ == s,
                None => res is Err,
            },
    {
        self.symbols_from(".dynsym", ".dynstr")
    }

    /// Parses the full symbol table from `.symtab` and `.strtab`.
    ///
    /// Returns an empty table when the sections are absent.
    pub fn symbols(&self) -> (res: Result<SymbolTable>)
        ensures
            match symbols_from_spec(self, ".symtab"@, ".strtab"@) {
                Some(s) => res matches Ok(t) && t@ == s,
                None => res is Err,
            },
    {
        self.symbols_from(".symtab", ".strtab")
    }

    /// Parses every relocation section in the image, in section order.
    pub fn relocations(&self) -> (res: Result<Vec<RelocationSection>>)
        ensures
            match relocations_spec(self.sections_spec(), self.ident_spec().data, self.ident_spec().class) {
                Some(tables) => res matches Ok(v) && v@.map_values(
                    |t: RelocationSection| (t.is_rela, t.entries@),
                ) == tables,
                None => res matches Err(e) && e.kind_spec() matches ErrorKind::InvalidSection(m) && m@
                    == "relocation table is not a whole number of entries"@,
            },
    {
        let mut tables: Vec<RelocationSection> = Vec::new();
        let mut i: usize = 0;
        while i < self.sections.len()
            invariant
                i <= self.sections@.len(),
                relocations_spec(self.sections@.take(i as int), self.ident.data, self.ident.class)
                    == Some(tables@.map_values(|t: RelocationSection| (t.is_rela, t.entries@))),
            decreases self.sections@.len() - i,
        {
            proof {
                assert(self.sections@.take(i + 1).drop_last() =~= self.sections@.take(i as int));
            }
            let kind = self.sections[i].header.kind.0;
            if kind == SectionType::RELA || kind == SectionType::REL {
                let is_rela = kind == SectionType::RELA;
                let ghost before = tables@.map_values(|t: RelocationSection| (t.is_rela, t.entries@));
                let table = match RelocationSection::parse(
                    self.sections[i].data.as_slice(),
                    is_rela,
                    self.ident.data,
                    self.ident.class,
                ) {
                    Ok(t) => t,
                    Err(e) => {
                        proof {
                            lemma_relocations_prefix_none(
                                self.sections@,
                                i + 1,
                                self.ident.data,
                                self.ident.class,
                            );
                        }
                        return Err(e);
                    },
                };
                tables.push(table);
                proof {
                    assert(tables@.map_values(|t: RelocationSection| (t.is_rela, t.entries@))
                        =~= before.push((table.is_rela, table.entries@)));
                }
            }
            i = i + 1;
        }
        assert(self.sections@.take(self.sections@.len() as int) =~= self.sections@);
        Ok(tables)
    }

    /// Parses every note of the `PT_NOTE` segments, in program-header order.
    pub fn notes(&self) -> (res: Result<Vec<Note>>)
        ensures
            match notes_spec(self) {
                Some(n) => res matches Ok(v) && notes_view(v@) == n,
                None => res is Err,
            },
    {
        let ghost e = self.ident.data;
        let ghost seg_parts = segment_note_parts(self.segments@);
        let mut notes: Vec<Note> = Vec::new();
        let mut i: usize = 0;
        while i < self.segments.len()
            invariant
                i <= self.segments@.len(),
                e == self.ident.data,
                seg_parts == segment_note_parts(self.segments@),
                notes_of_parts(segment_note_parts(self.segments@.take(i as int)), e) == Some(
                    notes_view(notes@),
                ),
            decreases self.segments@.len() - i,
        {
            proof {
                assert(self.segments@.take(i + 1).drop_last() =~= self.segments@.take(i as int));
            }
            let ghost parts_i = segment_note_parts(self.segments@.take(i as int));
            if self.segments[i].header.kind.0 == SegmentType::NOTE {
                proof {
                    assert(segment_note_parts(self.segments@.take(i + 1)) == parts_i.push(
                        self.segments@[i as int].data@,
                    ));
                    assert(parts_i.push(self.segments@[i as int].data@).drop_last() =~= parts_i);
                }
                let ghost before = notes_view(notes@);
                let mut parsed = match Note::parse_all(self.segments[i].data.as_slice(), self.ident.data) {
                    Ok(v) => v,
                    Err(err) => {
                        proof {
                            let p = segment_note_parts(self.segments@.take(i + 1));
                            assert(notes_of_parts(p, e) is None);
                            lemma_notes_of_parts_none(
                                p,
                                segment_note_parts(self.segments@.skip(i + 1)),
                                e,
                            );
                            lemma_segment_note_parts_split(self.segments@, i + 1);
                        }
                        return Err(err);
                    },
                };
                let ghost added = notes_view(parsed@);
                notes.append(&mut parsed);
                proof {
                    assert(notes_view(notes@) =~= before + added);
                }
            }
            i = i + 1;
        }
        assert(self.segments@.take(self.segments@.len() as int) =~= self.segments@);
        Ok(notes)
    }

    /// Returns the GNU build identifier when a build-id note exists.
    pub fn build_id(&self) -> (res: Result<Option<Vec<u8>>>)
        ensures
            match notes_spec(self) {
                Some(n) => match build_id_of(n) {
                    Some(id) => res matches Ok(Some(v)) && v@ == id,
                    None => res matches Ok(None),
                },
                None => res is Err,
            },
    {
        let mut notes = self.notes()?;
        let ghost n = notes_view(notes@);
        assert(notes_spec(self) == Some(n));
        let ghost p = build_id_pred();
        let mut i: usize = 0;
        while i < notes.len()
            invariant
                i <= notes@.len(),
                n == notes_view(notes@),
                notes_spec(self) == Some(n),
                p == build_id_pred(),
                first_match(n, p, 0) == first_match(n, p, i as int),
            decreases notes@.len() - i,
        {
            if notes[i].is_gnu(NT_GNU_BUILD_ID) {
                assert(p(n[i as int]));
                assert(first_match(n, p, i as int) == i);
                assert(n[i as int] == notes@[i as int]@);
                let note = notes.remove(i);
                return Ok(Some(note.descriptor));
            }
            assert(!p(n[i as int]));
            i = i + 1;
        }
        Ok(None)
    }

    /// Returns the names of the shared libraries the dynamic table needs,
    /// resolved through the `.dynstr` section.
    ///
    /// Returns an empty list when the image declares no dynamic segment.
    pub fn needed_libraries(&self) -> (res: Result<Vec<String>>)
        ensures
            ({
                let secs = self.sections_spec();
                let s = section_named(secs, ".dynstr"@);
                let dynstr = if s < secs.len() { secs[s].data@ } else { Seq::<u8>::empty() };
                match dynamic_spec(self) {
                    None => res matches Ok(v) && v@.len() == 0,
                    Some(Err(())) => res is Err,
                    Some(Ok(entries)) => res matches Ok(v) && v@.map_values(|s: String| s@)
                        == needed_of(entries, dynstr),
                }
            }),
    {
        let table = match self.dynamic()? {
            Some(t) => t,
            None => return Ok(Vec::new()),
        };
        let empty: Vec<u8> = Vec::new();
        let dynstr = match self.section_by_name(".dynstr") {
            Some(s) => s.data.as_slice(),
            None => empty.as_slice(),
        };
        Ok(table.needed(StringTable::new(dynstr)))
    }

    /// Returns thread-local storage metadata from the `PT_TLS` segment.
    pub fn tls(&self) -> (res: Option<TlsInfo>)
        ensures
            ({
                let segs = self.segments_spec();
                let i = segment_of_type(segs, SegmentType::TLS);
                if i < segs.len() {
                    res == Some(tls_of(segs[i].header))
                } else {
                    res is None
                }
            }),
    {
        let ghost p = seg_type_pred(SegmentType::TLS);
        let mut i: usize = 0;
        while i < self.segments.len()
            invariant
                p == seg_type_pred(SegmentType::TLS),
                i <= self.segments@.len(),
                first_match(self.segments@, p, 0) == first_match(self.segments@, p, i as int),
            decreases self.segments@.len() - i,
        {
            if self.segments[i].header.kind.0 == SegmentType::TLS {
                return Some(TlsInfo::from_header(&self.segments[i].header));
            }
            i = i + 1;
        }
        None
    }

    /// Returns up to `len` bytes at a preferred-base virtual address.
    ///
    /// Bytes beyond the covering segment's file data but inside its memory
    /// size read as zero. Returns `None` when no segment covers `vaddr`.
    pub fn read_at_vaddr(&self, vaddr: u64, len: usize) -> (res: Option<Vec<u8>>)
        ensures
            match read_at_vaddr_spec(self.segments_spec(), vaddr, len as int) {
                Some(b) => res matches Some(v) && v@ == b,
                None => res is None,
            },
    {
        let i = self.covering_index(vaddr);
        if i >= self.segments.len() {
            return None;
        }
        let segment = &self.segments[i];
        let diff = vaddr - segment.header.vaddr;
        if diff > usize::MAX as u64 {
            return None;
        }
        let start = diff as usize;
        let mut out: Vec<u8> = Vec::with_capacity(len);
        let mut j: usize = 0;
        while j < len
            invariant
                j <= len,
                out@ == zero_extended(segment.data@, start as int, j as int),
            decreases len - j,
        {
            let byte = if start < segment.data.len() && j < segment.data.len() - start {
                segment.data[start + j]
            } else {
                0u8
            };
            out.push(byte);
            j = j + 1;
            assert(out@ =~= zero_extended(segment.data@, start as int, j as int));
        }
        Some(out)
    }
}

/// A lookup by name finds the first section with that name: the section
/// found has the name and none before it has; the lookup runs off the end
/// exactly when no section has the name.
pub proof fn lemma_section_named_first(secs: Seq<Section>, name: Seq<char>)
    ensures
        section_named(secs, name) <= secs.len(),
        section_named(secs, name) < secs.len() ==> secs[section_named(secs, name)].name@ == name,
        forall|j: int| 0 <= j < section_named(secs, name) ==> (#[trigger] secs[j]).name@ != name,
{
    lemma_first_match(secs, named_pred(name), 0);
}

/// A lookup by segment type finds the first segment of that type: the
/// segment found has the type and none before it has; the lookup runs off
/// the end exactly when no segment has the type.
pub proof fn lemma_segment_of_type_first(segs: Seq<Segment>, kind: u32)
    ensures
        segment_of_type(segs, kind) <= segs.len(),
        segment_of_type(segs, kind) < segs.len() ==> segs[segment_of_type(segs, kind)].header.kind.0
            == kind,
        forall|j: int| 0 <= j < segment_of_type(segs, kind) ==> (#[trigger] segs[j]).header.kind.0
            != kind,
{
    lemma_first_match(segs, seg_type_pred(kind), 0);
}

/// The build identifier is the descriptor of the first note named `GNU`
/// with type `NT_GNU_BUILD_ID` (3), and there is none exactly when no note
/// is named `GNU` with that type.
pub proof fn lemma_build_id_first(notes: Seq<NoteModel>)
    ensures
        build_id_of(notes) is None <==> forall|i: int|
            0 <= i < notes.len() ==> !((#[trigger] notes[i]).0 == seq!['G', 'N', 'U'] && notes[i].1
                == 3),
        build_id_of(notes) matches Some(d) ==> exists|i: int|
            0 <= i < notes.len() && (#[trigger] notes[i]).0 == seq!['G', 'N', 'U'] && notes[i].1 == 3
                && notes[i].2 == d && forall|j: int|
                0 <= j < i ==> !((#[trigger] notes[j]).0 == seq!['G', 'N', 'U'] && notes[j].1 == 3),
{
    reveal_strlit("GNU");
    assert(NAME_GNU@ =~= seq!['G', 'N', 'U']);
    let p = build_id_pred();
    lemma_first_match(notes, p, 0);
    let i = first_match(notes, p, 0);
    if i < notes.len() {
        assert(p(notes[i]));
    }
    assert forall|j: int| 0 <= j < i implies !((#[trigger] notes[j]).0 == seq!['G', 'N', 'U']
        && notes[j].1 == 3) by {
        assert(!p(notes[j]));
    }
}

/// The thread-local storage metadata of a `PT_TLS` header is its
/// `p_vaddr` as the template address, `p_filesz` as the initialized size,
/// `p_memsz` as the total size and `p_align` as the alignment.
pub proof fn lemma_tls_fields(h: crate::program::ProgramHeader)
    ensures
        tls_of(h).template_vaddr == h.vaddr,
        tls_of(h).file_size == h.filesz,
        tls_of(h).mem_size == h.memsz,
        tls_of(h).align == h.align,
{
}

} // verus!

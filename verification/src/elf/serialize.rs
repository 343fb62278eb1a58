//! Serializing an [`ElfImage`] to file and mapped layouts.

use vstd::prelude::*;

use crate::error::{Error, ErrorKind, Result};
use crate::header::{ehdr_size, ElfHeader};
use crate::ident::{ElfClass, ElfIdent, Endian};
use crate::program::{phdr_size, sat_add, ProgramHeader, Segment, SegmentType};
use crate::reader::window;
use crate::reloc::{reloc_kind_spec, reloc_width_spec, relocation_kind, relocation_width, RelocKind, RelocationEntry};
use crate::section::{shdr_size, Section, SectionFlags, SectionHeader, SectionType};

use super::inspect::relocations_spec;
use super::parse::section_views;
use super::{align_up, align_up_spec, first_match, image_geometry, ElfImage};

verus! {

/// Upper bound for a serialized or mapped image (256 MiB).
///
/// Untrusted header fields can claim spans near `u64::MAX`; this cap
/// rejects them before any allocation is attempted.
pub const MAX_IMAGE: usize = 0x1000_0000;

/// The name of the section-name string table.
pub const SHSTRTAB_NAME: &'static str = ".shstrtab";

/// The view of one section: header, name, and bytes.
pub type SectionView = (SectionHeader, Seq<char>, Seq<u8>);

/// `out` with `bytes` written at `off`, grown with zero bytes as needed.
pub open spec fn written(out: Seq<u8>, off: int, bytes: Seq<u8>) -> Seq<u8> {
    let end = off + bytes.len();
    let len = if out.len() >= end {
        out.len() as int
    } else {
        end
    };
    Seq::new(
        len as nat,
        |j: int|
            if off <= j < end {
                bytes[j - off]
            } else if j < out.len() {
                out[j]
            } else {
                0u8
            },
    )
}

/// The message of a write at `offset` that would end past [`MAX_IMAGE`].
pub open spec fn write_error_text(offset: u64) -> Seq<char> {
    if offset > MAX_IMAGE {
        "image is too large"@
    } else {
        "serialized image exceeds the 256 MiB layout limit"@
    }
}

/// Writes `bytes` at `offset`, growing `out` with zero bytes as needed.
///
/// Fails, leaving `out` unchanged, when the write would end past
/// [`MAX_IMAGE`].
fn write_at(out: &mut Vec<u8>, offset: u64, bytes: &[u8]) -> (res: Result<()>)
    ensures
        res is Ok <==> offset + bytes@.len() <= MAX_IMAGE,
        res matches Err(e) ==> e.kind_spec() matches ErrorKind::Generic(m) && m@ == write_error_text(
            offset,
        ),
        res is Ok ==> final(out)@ == written(old(out)@, offset as int, bytes@),
        res is Err ==> final(out)@ == old(out)@,
{
    if offset > MAX_IMAGE as u64 {
        return Err(Error::generic("image is too large"));
    }
    let start = offset as usize;
    if bytes.len() > MAX_IMAGE - start {
        return Err(Error::generic("serialized image exceeds the 256 MiB layout limit"));
    }
    let end = start + bytes.len();
    let ghost before = out@;
    if out.len() < end {
        out.resize(end, 0u8);
    }
    let mut k: usize = 0;
    while k < bytes.len()
        invariant
            k <= bytes@.len(),
            end == start + bytes@.len(),
            out@.len() == if before.len() >= end {
                before.len() as int
            } else {
                end as int
            },
            forall|j: int| 0 <= j < start ==> out@[j] == if j < before.len() {
                before[j]
            } else {
                0u8
            },
            forall|j: int| end <= j < out@.len() ==> out@[j] == before[j],
            forall|j: int| start <= j < start + k ==> out@[j] == bytes@[j - start],
        decreases bytes@.len() - k,
    {
        out.set(start + k, bytes[k]);
        k = k + 1;
    }
    assert(out@ =~= written(before, offset as int, bytes@));
    Ok(())
}

/// The first offset at or after `cursor` congruent to `vaddr` modulo
/// `alignment`, saturating at `u64::MAX`.
pub open spec fn congruent_spec(cursor: u64, vaddr: u64, alignment: u64) -> u64 {
    if alignment <= 1 {
        cursor
    } else {
        let target = vaddr % alignment;
        let current = cursor % alignment;
        if current == target {
            cursor
        } else if current < target {
            sat_add(cursor, (target - current) as u64)
        } else {
            sat_add(cursor, (alignment - (current - target)) as u64)
        }
    }
}

/// Finds the first file offset at or after `cursor` congruent to `vaddr`.
///
/// Saturates instead of overflowing when untrusted `p_vaddr` or `p_align`
/// values push the result past `u64::MAX`.
fn congruent(cursor: u64, vaddr: u64, alignment: u64) -> (res: u64)
    ensures
        res == congruent_spec(cursor, vaddr, alignment),
{
    if alignment <= 1 {
        return cursor;
    }
    let target = vaddr % alignment;
    let current = cursor % alignment;
    if current == target {
        cursor
    } else if current < target {
        cursor.saturating_add(target - current)
    } else {
        cursor.saturating_add(alignment - (current - target))
    }
}

/// Whether a section view is the section-name string table.
pub open spec fn is_shstrtab_view(s: SectionView) -> bool {
    s.0.kind.0 == SectionType::STRTAB && s.1 == SHSTRTAB_NAME@
}

/// The predicate of section views that are the section-name string table.
pub open spec fn shstrtab_pred() -> spec_fn(SectionView) -> bool {
    |s: SectionView| is_shstrtab_view(s)
}

/// The header of a fresh, empty section-name string table.
pub open spec fn new_shstrtab_header() -> SectionHeader {
    SectionHeader {
        name_index: 0,
        kind: SectionType(SectionType::STRTAB),
        flags: SectionFlags(0),
        addr: 0,
        offset: 0,
        size: 0,
        link: 0,
        info: 0,
        addralign: 1,
        entsize: 0,
    }
}

/// A section index as a `u16`, or zero when it does not fit.
pub open spec fn index_u16(i: int) -> u16 {
    if 0 <= i <= u16::MAX {
        i as u16
    } else {
        0
    }
}

/// The sections with a section-name string table, and its index: the first
/// one present, or a new empty one appended at the end.
pub open spec fn with_shstrtab(v: Seq<SectionView>) -> (Seq<SectionView>, u16) {
    let i = first_match(v, shstrtab_pred(), 0);
    if i < v.len() {
        (v, index_u16(i))
    } else {
        (v.push((new_shstrtab_header(), SHSTRTAB_NAME@, Seq::empty())), index_u16(v.len() as int))
    }
}

/// Copies a list of sections.
fn clone_sections(sections: &Vec<Section>) -> (res: Vec<Section>)
    ensures
        section_views(res@) == section_views(sections@),
{
    let mut out: Vec<Section> = Vec::new();
    let mut i: usize = 0;
    while i < sections.len()
        invariant
            i <= sections@.len(),
            out@.len() == i,
            forall|j: int| 0 <= j < i ==> #[trigger] out@[j]@ == sections@[j]@,
        decreases sections@.len() - i,
    {
        let s = &sections[i];
        let data = s.data.clone();
        assert(data@ =~= s.data@);
        out.push(Section { header: s.header, name: s.name.clone(), data });
        i = i + 1;
    }
    assert(section_views(out@) =~= section_views(sections@));
    out
}

/// Ensures a `.shstrtab` section exists and returns its index.
fn ensure_shstrtab(sections: &mut Vec<Section>) -> (res: u16)
    ensures
        (section_views(final(sections)@), res) == with_shstrtab(section_views(old(sections)@)),
{
    let ghost v = section_views(sections@);
    let name = SHSTRTAB_NAME.to_owned();
    let mut i: usize = 0;
    while i < sections.len()
        invariant
            i <= sections@.len(),
            v == section_views(sections@),
            name@ == SHSTRTAB_NAME@,
            first_match(v, shstrtab_pred(), 0) == first_match(v, shstrtab_pred(), i as int),
        decreases sections@.len() - i,
    {
        if sections[i].name == name && sections[i].header.kind.0 == SectionType::STRTAB {
            proof {
                assert(shstrtab_pred()(v[i as int]));
            }
            let index: u16 = if i <= 0xffff {
                i as u16
            } else {
                0
            };
            return index;
        }
        proof {
            assert(!shstrtab_pred()(v[i as int]));
        }
        i = i + 1;
    }
    sections.push(
        Section {
            header: SectionHeader {
                name_index: 0,
                kind: SectionType(SectionType::STRTAB),
                flags: SectionFlags(0),
                addr: 0,
                offset: 0,
                size: 0,
                link: 0,
                info: 0,
                addralign: 1,
                entsize: 0,
            },
            name,
            data: Vec::new(),
        },
    );
    proof {
        assert(section_views(sections@) =~= v.push(
            (new_shstrtab_header(), SHSTRTAB_NAME@, Seq::empty()),
        ));
    }
    let last = sections.len() - 1;
    if last <= 0xffff {
        last as u16
    } else {
        0
    }
}

/// The section-name blob up to (not including) section `n`: a leading NUL,
/// then each name followed by a NUL.
pub open spec fn name_blob(v: Seq<SectionView>, n: int) -> Seq<u8>
    decreases n,
{
    if n <= 0 {
        seq![0u8]
    } else {
        name_blob(v, n - 1) + vstd::utf8::encode_utf8(v[n - 1].1) + seq![0u8]
    }
}

/// The sections with their name offsets patched into the blob; the
/// section-name string table also takes the blob as its bytes and size.
pub open spec fn named_views(v: Seq<SectionView>) -> Seq<SectionView> {
    let blob = name_blob(v, v.len() as int);
    Seq::new(
        v.len(),
        |i: int|
            {
                let s = v[i];
                let h = SectionHeader { name_index: name_blob(v, i).len() as u32, ..s.0 };
                if is_shstrtab_view(s) {
                    (SectionHeader { size: blob.len() as u64, ..h }, s.1, blob)
                } else {
                    (h, s.1, s.2)
                }
            },
    )
}

/// Builds the section-name blob and patches every `sh_name`.
fn assign_name_offsets(sections: &mut Vec<Section>)
    ensures
        section_views(final(sections)@) == named_views(section_views(old(sections)@)),
{
    let ghost v = section_views(sections@);
    let mut blob: Vec<u8> = Vec::new();
    blob.push(0u8);
    let mut offsets: Vec<u32> = Vec::new();
    let mut i: usize = 0;
    while i < sections.len()
        invariant
            i <= sections@.len(),
            v == section_views(sections@),
            blob@ == name_blob(v, i as int),
            offsets@.len() == i,
            forall|j: int| 0 <= j < i ==> #[trigger] offsets@[j] == name_blob(v, j).len() as u32,
        decreases sections@.len() - i,
    {
        offsets.push(blob.len() as u32);
        let bytes = sections[i].name.as_str().as_bytes();
        let ghost before = blob@;
        let mut k: usize = 0;
        while k < bytes.len()
            invariant
                k <= bytes@.len(),
                blob@ == before + bytes@.take(k as int),
            decreases bytes@.len() - k,
        {
            proof {
                assert(bytes@.take(k + 1) =~= bytes@.take(k as int).push(bytes@[k as int]));
            }
            blob.push(bytes[k]);
            k = k + 1;
        }
        blob.push(0u8);
        proof {
            assert(bytes@.take(bytes@.len() as int) =~= bytes@);
            assert(blob@ =~= name_blob(v, i + 1));
        }
        i = i + 1;
    }
    let ghost full = blob@;
    let name = SHSTRTAB_NAME.to_owned();
    let mut i: usize = 0;
    while i < sections.len()
        invariant
            i <= sections@.len(),
            sections@.len() == v.len(),
            offsets@.len() == v.len(),
            name@ == SHSTRTAB_NAME@,
            blob@ == full,
            full == name_blob(v, v.len() as int),
            forall|j: int| 0 <= j < v.len() ==> #[trigger] offsets@[j] == name_blob(v, j).len() as u32,
            forall|j: int| 0 <= j < i ==> #[trigger] sections@[j]@ == named_views(v)[j],
            forall|j: int| i <= j < v.len() ==> #[trigger] sections@[j]@ == v[j],
        decreases v.len() - i,
    {
        let ghost before = sections@;
        let mut section = sections.remove(i);
        assert(section@ == v[i as int]);
        section.header.name_index = offsets[i];
        if section.header.kind.0 == SectionType::STRTAB && section.name == name {
            section.data = blob.clone();
            assert(section.data@ =~= full);
            section.header.size = blob.len() as u64;
        }
        assert(section@ == named_views(v)[i as int]);
        sections.insert(i, section);
        proof {
            assert forall|j: int| 0 <= j < v.len() && j != i implies #[trigger] sections@[j]
                == before[j] by {
                if j < i {
                    assert(sections@[j] == before[j]);
                } else {
                    assert(sections@[j] == before[j]);
                }
            }
        }
        i = i + 1;
    }
    assert(section_views(sections@) =~= named_views(v));
}

/// The view of one segment: header and bytes.
pub type SegmentView = (ProgramHeader, Seq<u8>);

/// The views of a list of segments.
pub open spec fn segment_views(segs: Seq<Segment>) -> Seq<SegmentView> {
    segs.map_values(|s: Segment| s@)
}

/// The number of bytes of a segment that the file layout stores: its file
/// size, bounded by the bytes it holds.
pub open spec fn seg_writable(s: SegmentView) -> int {
    if s.0.filesz > usize::MAX {
        0
    } else if s.0.filesz <= s.1.len() {
        s.0.filesz as int
    } else {
        s.1.len() as int
    }
}

/// The alignment a segment's file offset keeps: its own for a loadable
/// segment, none for any other.
pub open spec fn seg_alignment(h: ProgramHeader) -> u64 {
    if h.kind.0 == SegmentType::LOAD {
        if h.align >= 1 {
            h.align
        } else {
            1
        }
    } else {
        1
    }
}

/// The state of a file layout after placing some segments: the cursor, the
/// bytes so far, and the program headers with their file ranges.
pub type SegmentCursor = (u64, Seq<u8>, Seq<ProgramHeader>);

/// Places segments one after the other from `start`, each loadable segment
/// at an offset congruent to its address; `None` when a write would pass
/// [`MAX_IMAGE`].
pub open spec fn place_segments(segs: Seq<SegmentView>, start: SegmentCursor) -> Option<SegmentCursor>
    decreases segs.len(),
{
    if segs.len() == 0 {
        Some(start)
    } else {
        match place_segments(segs.drop_last(), start) {
            None => None,
            Some((cur, out, ph)) => {
                let s = segs.last();
                let w = seg_writable(s);
                if w == 0 {
                    Some((cur, out, ph.push(ProgramHeader { offset: 0, filesz: 0, ..s.0 })))
                } else {
                    let at = congruent_spec(cur, s.0.vaddr, seg_alignment(s.0));
                    if at + w > MAX_IMAGE {
                        None
                    } else {
                        Some(
                            (
                                (at + w) as u64,
                                written(out, at as int, s.1.take(w)),
                                ph.push(ProgramHeader { offset: at, filesz: w as u64, ..s.0 }),
                            ),
                        )
                    }
                }
            },
        }
    }
}

/// The state of a file layout after placing some sections.
pub type SectionCursor = (u64, Seq<u8>, Seq<SectionHeader>);

/// The alignment a section's file offset keeps.
pub open spec fn sec_alignment(h: SectionHeader) -> u64 {
    if h.addralign >= 1 {
        h.addralign
    } else {
        1
    }
}

/// Places the bytes of sections one after the other from `start`; a
/// `NOBITS` section keeps its header, an empty one gets size zero.
pub open spec fn place_sections(v: Seq<SectionView>, start: SectionCursor) -> Option<SectionCursor>
    decreases v.len(),
{
    if v.len() == 0 {
        Some(start)
    } else {
        match place_sections(v.drop_last(), start) {
            None => None,
            Some((cur, out, hs)) => {
                let s = v.last();
                if s.0.nobits_spec() {
                    Some((cur, out, hs.push(s.0)))
                } else if s.2.len() == 0 {
                    Some((cur, out, hs.push(SectionHeader { size: 0, ..s.0 })))
                } else {
                    let at = align_up_spec(cur, sec_alignment(s.0));
                    if at + s.2.len() > MAX_IMAGE {
                        None
                    } else {
                        Some(
                            (
                                (at + s.2.len()) as u64,
                                written(out, at as int, s.2),
                                hs.push(SectionHeader { offset: at, size: s.2.len() as u64, ..s.0 }),
                            ),
                        )
                    }
                }
            },
        }
    }
}

/// The serialized program header table.
pub open spec fn phdr_table_bytes(ph: Seq<ProgramHeader>, e: Endian, class: ElfClass) -> Seq<u8>
    decreases ph.len(),
{
    if ph.len() == 0 {
        Seq::empty()
    } else {
        phdr_table_bytes(ph.drop_last(), e, class) + ph.last().bytes_spec(e, class)
    }
}

/// The serialized section header table.
pub open spec fn shdr_table_bytes(hs: Seq<SectionHeader>, e: Endian, class: ElfClass) -> Seq<u8>
    decreases hs.len(),
{
    if hs.len() == 0 {
        Seq::empty()
    } else {
        shdr_table_bytes(hs.drop_last(), e, class) + hs.last().bytes_spec(e, class)
    }
}

/// `a`, saturated at `u64::MAX`.
pub open spec fn sat_int(a: int) -> u64 {
    if a <= u64::MAX {
        a as u64
    } else {
        u64::MAX
    }
}

/// The sections the file layout writes, and the index of the section-name
/// string table among them.
pub open spec fn layout_sections(v: Seq<SectionView>) -> (Seq<SectionView>, u16) {
    if v.len() == 0 {
        (v, 0u16)
    } else {
        let (w, k) = with_shstrtab(v);
        (named_views(w), k)
    }
}

/// The ELF header the file layout writes.
pub open spec fn layout_header(
    header: ElfHeader,
    class: ElfClass,
    phnum: int,
    shnum: int,
    shstrndx: u16,
    shoff: u64,
) -> ElfHeader {
    ElfHeader {
        phoff: ehdr_size(class) as u64,
        ehsize: ehdr_size(class) as u16,
        phentsize: phdr_size(class) as u16,
        phnum: phnum as u16,
        shnum: shnum as u16,
        shstrndx,
        shentsize: shdr_size(class) as u16,
        shoff,
        ..header
    }
}

/// The bytes of an object with identification `ident`, header `header`,
/// and the given segments and sections in ELF file layout, or `None` when it
/// cannot be laid out: a write passes [`MAX_IMAGE`], or a table holds more
/// than `u16::MAX` entries.
///
/// The ELF header comes first, then the program header table, the segment
/// bytes (each loadable segment at a file offset congruent to its address),
/// the section bytes, and the section header table at an 8-aligned offset.
pub open spec fn file_bytes_of(
    ident: ElfIdent,
    header: ElfHeader,
    segs: Seq<SegmentView>,
    sections: Seq<SectionView>,
) -> Option<Seq<u8>> {
    let class = ident.class;
    let e = ident.data;
    let ehsize = ehdr_size(class);
    let cursor0 = sat_int(ehsize + phdr_size(class) * segs.len());
    let zeros = Seq::new(ehsize as nat, |j: int| 0u8);
    match place_segments(segs, (cursor0, zeros, Seq::empty())) {
        None => None,
        Some((cur1, out1, ph)) => {
            let (secs, shstrndx) = layout_sections(sections);
            match place_sections(secs, (cur1, out1, Seq::empty())) {
                None => None,
                Some((cur2, out2, shs)) => {
                    let ptab = phdr_table_bytes(ph, e, class);
                    let shoff = if secs.len() == 0 {
                        0u64
                    } else {
                        align_up_spec(cur2, 8)
                    };
                    let stab = shdr_table_bytes(shs, e, class);
                    if ehsize + ptab.len() > MAX_IMAGE || ph.len() > u16::MAX || secs.len()
                        > u16::MAX || (secs.len() > 0 && shoff + stab.len() > MAX_IMAGE) {
                        None
                    } else {
                        let out3 = written(out2, ehsize, ptab);
                        let out4 = if secs.len() == 0 {
                            out3
                        } else {
                            written(out3, shoff as int, stab)
                        };
                        let h = layout_header(header, class, ph.len() as int, secs.len() as int, shstrndx, shoff);
                        Some(written(out4, 0, h.bytes_spec()))
                    }
                },
            }
        },
    }
}

/// The message of the error a file layout gives when it cannot be made:
/// the first write that would pass [`MAX_IMAGE`], in the order segments,
/// sections, program header table, or a table with more than `u16::MAX`
/// entries, or the section header table.
pub open spec fn file_layout_error(
    ident: ElfIdent,
    header: ElfHeader,
    segs: Seq<SegmentView>,
    sections: Seq<SectionView>,
) -> Seq<char> {
    let class = ident.class;
    let ehsize = ehdr_size(class);
    let start = (
        sat_int(ehsize + phdr_size(class) * segs.len()),
        Seq::new(ehsize as nat, |j: int| 0u8),
        Seq::<ProgramHeader>::empty(),
    );
    match place_segments(segs, start) {
        None => write_error_text(segments_fail_at(segs, start)),
        Some((cur1, out1, ph)) => {
            let secs = layout_sections(sections).0;
            match place_sections(secs, (cur1, out1, Seq::empty())) {
                None => write_error_text(sections_fail_at(secs, (cur1, out1, Seq::empty()))),
                Some((cur2, out2, shs)) => {
                    if ehsize + phdr_table_bytes(ph, ident.data, class).len() > MAX_IMAGE {
                        write_error_text(ehsize as u64)
                    } else if ph.len() > u16::MAX {
                        "too many program headers for one table"@
                    } else if secs.len() > u16::MAX {
                        "too many sections for one table"@
                    } else {
                        write_error_text(align_up_spec(cur2, 8))
                    }
                },
            }
        },
    }
}

/// The message of the error [`ElfImage::try_build`] gives for `img`.
pub open spec fn file_layout_error_of(img: ElfImage) -> Seq<char> {
    file_layout_error(
        img.ident_spec(),
        img.header_spec(),
        segment_views(img.segments_spec()),
        section_views(img.sections_spec()),
    )
}

/// The bytes of `img` in ELF file layout; see [`file_bytes_of`].
pub open spec fn file_bytes_spec(img: ElfImage) -> Option<Seq<u8>> {
    file_bytes_of(
        img.ident_spec(),
        img.header_spec(),
        segment_views(img.segments_spec()),
        section_views(img.sections_spec()),
    )
}

/// Where the write that stops the placing of segments would start: the
/// offset of the first segment whose bytes do not fit.
pub open spec fn segments_fail_at(segs: Seq<SegmentView>, start: SegmentCursor) -> u64
    decreases segs.len(),
{
    if segs.len() == 0 {
        0
    } else {
        match place_segments(segs.drop_last(), start) {
            None => segments_fail_at(segs.drop_last(), start),
            Some((cur, _, _)) => congruent_spec(cur, segs.last().0.vaddr, seg_alignment(segs.last().0)),
        }
    }
}

/// Once a prefix of the segments cannot be placed, the write that stops the
/// whole is the one that stops the prefix.
proof fn lemma_segments_fail_at(segs: Seq<SegmentView>, start: SegmentCursor, n: int)
    requires
        0 <= n <= segs.len(),
        place_segments(segs.take(n), start) is None,
    ensures
        place_segments(segs, start) is None,
        segments_fail_at(segs, start) == segments_fail_at(segs.take(n), start),
    decreases segs.len() - n,
{
    if n < segs.len() {
        assert(segs.take(n + 1).drop_last() =~= segs.take(n));
        lemma_segments_fail_at(segs, start, n + 1);
    } else {
        assert(segs.take(n) =~= segs);
    }
}

/// Where the write that stops the placing of sections would start: the
/// offset of the first section whose bytes do not fit.
pub open spec fn sections_fail_at(v: Seq<SectionView>, start: SectionCursor) -> u64
    decreases v.len(),
{
    if v.len() == 0 {
        0
    } else {
        match place_sections(v.drop_last(), start) {
            None => sections_fail_at(v.drop_last(), start),
            Some((cur, _, _)) => align_up_spec(cur, sec_alignment(v.last().0)),
        }
    }
}

/// Once a prefix of the sections cannot be placed, the write that stops the
/// whole is the one that stops the prefix.
proof fn lemma_sections_fail_at(v: Seq<SectionView>, start: SectionCursor, n: int)
    requires
        0 <= n <= v.len(),
        place_sections(v.take(n), start) is None,
    ensures
        place_sections(v, start) is None,
        sections_fail_at(v, start) == sections_fail_at(v.take(n), start),
    decreases v.len() - n,
{
    if n < v.len() {
        assert(v.take(n + 1).drop_last() =~= v.take(n));
        lemma_sections_fail_at(v, start, n + 1);
    } else {
        assert(v.take(n) =~= v);
    }
}

/// Lays out the segment bytes and returns the program headers with their
/// file ranges and the cursor after the last segment.
fn place_segments_exec(segments: &Vec<Segment>, out: &mut Vec<u8>, cursor: u64) -> (res: Result<
    (Vec<ProgramHeader>, u64),
>)
    ensures
        match place_segments(segment_views(segments@), (cursor, old(out)@, Seq::empty())) {
            None => res matches Err(e) && e.kind_spec() matches ErrorKind::Generic(m) && m@
                == write_error_text(
                segments_fail_at(segment_views(segments@), (cursor, old(out)@, Seq::empty())),
            ),
            Some((cur, bytes, ph)) => res matches Ok((v, c)) && c == cur && v@ == ph && final(out)@
                == bytes,
        },
{
    let ghost start = (cursor, old(out)@, Seq::<ProgramHeader>::empty());
    let ghost v = segment_views(segments@);
    let mut phdrs: Vec<ProgramHeader> = Vec::new();
    let mut cur = cursor;
    let mut i: usize = 0;
    while i < segments.len()
        invariant
            i <= segments@.len(),
            v == segment_views(segments@),
            start == (cursor, old(out)@, Seq::<ProgramHeader>::empty()),
            place_segments(v.take(i as int), start) == Some((cur, out@, phdrs@)),
        decreases segments@.len() - i,
    {
        proof {
            assert(v.take(i + 1).drop_last() =~= v.take(i as int));
        }
        let segment = &segments[i];
        let writable: usize = if segment.header.filesz > usize::MAX as u64 {
            0
        } else if (segment.header.filesz as usize) <= segment.data.len() {
            segment.header.filesz as usize
        } else {
            segment.data.len()
        };
        let mut header = segment.header;
        if writable == 0 {
            header.offset = 0;
            header.filesz = 0;
            phdrs.push(header);
        } else {
            let alignment = if segment.header.kind.0 == SegmentType::LOAD {
                if segment.header.align >= 1 {
                    segment.header.align
                } else {
                    1
                }
            } else {
                1
            };
            let at = congruent(cur, segment.header.vaddr, alignment);
            let bytes = vstd::slice::slice_subrange(segment.data.as_slice(), 0, writable);
            assert(bytes@ =~= segment.data@.take(writable as int));
            match write_at(out, at, bytes) {
                Ok(()) => {},
                Err(e) => {
                    proof {
                        assert(v.take(i + 1).drop_last() =~= v.take(i as int));
                        lemma_segments_fail_at(v, start, i as int + 1);
                    }
                    return Err(e);
                },
            }
            header.offset = at;
            header.filesz = writable as u64;
            phdrs.push(header);
            cur = at + writable as u64;
        }
        i = i + 1;
    }
    proof {
        assert(v.take(v.len() as int) =~= v);
    }
    Ok((phdrs, cur))
}

/// Lays out the section bytes and returns the section headers with their
/// file ranges and the cursor after the last section.
fn place_sections_exec(sections: &Vec<Section>, out: &mut Vec<u8>, cursor: u64) -> (res: Result<
    (Vec<SectionHeader>, u64),
>)
    ensures
        match place_sections(section_views(sections@), (cursor, old(out)@, Seq::empty())) {
            None => res matches Err(e) && e.kind_spec() matches ErrorKind::Generic(m) && m@
                == write_error_text(
                sections_fail_at(section_views(sections@), (cursor, old(out)@, Seq::empty())),
            ),
            Some((cur, bytes, hs)) => res matches Ok((v, c)) && c == cur && v@ == hs && final(out)@
                == bytes,
        },
{
    let ghost v = section_views(sections@);
    let ghost start = (cursor, old(out)@, Seq::<SectionHeader>::empty());
    let mut headers: Vec<SectionHeader> = Vec::new();
    let mut cur = cursor;
    let mut i: usize = 0;
    while i < sections.len()
        invariant
            i <= sections@.len(),
            v == section_views(sections@),
            start == (cursor, old(out)@, Seq::<SectionHeader>::empty()),
            place_sections(v.take(i as int), start) == Some((cur, out@, headers@)),
        decreases sections@.len() - i,
    {
        proof {
            assert(v.take(i + 1).drop_last() =~= v.take(i as int));
        }
        let section = &sections[i];
        let mut header = section.header;
        if section.header.is_nobits() {
            headers.push(header);
        } else if section.data.len() == 0 {
            header.size = 0;
            headers.push(header);
        } else {
            let alignment = if section.header.addralign >= 1 {
                section.header.addralign
            } else {
                1
            };
            let at = align_up(cur, alignment);
            match write_at(out, at, section.data.as_slice()) {
                Ok(()) => {},
                Err(e) => {
                    proof {
                        assert(v.take(i + 1).drop_last() =~= v.take(i as int));
                        lemma_sections_fail_at(v, start, i as int + 1);
                    }
                    return Err(e);
                },
            }
            header.offset = at;
            header.size = section.data.len() as u64;
            headers.push(header);
            cur = at + section.data.len() as u64;
        }
        i = i + 1;
    }
    proof {
        assert(v.take(v.len() as int) =~= v);
    }
    Ok((headers, cur))
}

/// The serialized length of any program header is the entry size.
pub(crate) proof fn lemma_phdr_bytes_len(h: ProgramHeader, e: Endian, class: ElfClass)
    ensures
        h.bytes_spec(e, class).len() == phdr_size(class),
{
    lemma_encode_lens(e);
}

/// The byte sequences of 32-bit and 64-bit values have four and eight
/// bytes.
proof fn lemma_encode_lens(e: Endian)
    ensures
        forall|v: u32| #[trigger] e.encode32(v).len() == 4,
        forall|v: u64| #[trigger] e.encode64(v).len() == 8,
{
}

/// The serialized length of any section header is the entry size.
pub(crate) proof fn lemma_shdr_bytes_len(h: SectionHeader, e: Endian, class: ElfClass)
    ensures
        h.bytes_spec(e, class).len() == shdr_size(class),
{
    lemma_encode_lens(e);
}

/// The serialized section header table holds one entry per header.
pub(crate) proof fn lemma_shdr_table_len(hs: Seq<SectionHeader>, e: Endian, class: ElfClass)
    ensures
        shdr_table_bytes(hs, e, class).len() == hs.len() * shdr_size(class),
    decreases hs.len(),
{
    if hs.len() > 0 {
        lemma_shdr_table_len(hs.drop_last(), e, class);
        lemma_shdr_bytes_len(hs.last(), e, class);
        assert((hs.len() - 1) * shdr_size(class) + shdr_size(class) == hs.len() * shdr_size(class))
            by (nonlinear_arith);
    }
}

/// Serializes a program header table.
fn write_phdr_table(phdrs: &Vec<ProgramHeader>, endian: Endian, class: ElfClass) -> (res: Vec<u8>)
    ensures
        res@ == phdr_table_bytes(phdrs@, endian, class),
{
    let mut table: Vec<u8> = Vec::new();
    let mut i: usize = 0;
    while i < phdrs.len()
        invariant
            i <= phdrs@.len(),
            table@ == phdr_table_bytes(phdrs@.take(i as int), endian, class),
        decreases phdrs@.len() - i,
    {
        proof {
            assert(phdrs@.take(i + 1).drop_last() =~= phdrs@.take(i as int));
        }
        phdrs[i].write(&mut table, endian, class);
        i = i + 1;
    }
    assert(phdrs@.take(phdrs@.len() as int) =~= phdrs@);
    table
}

/// Serializes a section header table.
fn write_shdr_table(headers: &Vec<SectionHeader>, endian: Endian, class: ElfClass) -> (res: Vec<u8>)
    ensures
        res@ == shdr_table_bytes(headers@, endian, class),
{
    let mut table: Vec<u8> = Vec::new();
    let mut i: usize = 0;
    while i < headers.len()
        invariant
            i <= headers@.len(),
            table@ == shdr_table_bytes(headers@.take(i as int), endian, class),
        decreases headers@.len() - i,
    {
        proof {
            assert(headers@.take(i + 1).drop_last() =~= headers@.take(i as int));
        }
        headers[i].write(&mut table, endian, class);
        i = i + 1;
    }
    assert(headers@.take(headers@.len() as int) =~= headers@);
    table
}

impl ElfImage {
    /// Serializes the image in ELF file layout.
    ///
    /// The operation places the ELF header, the program header table, the
    /// segment data, the section data, and the section header table. Each
    /// loadable segment keeps `p_offset` congruent to `p_vaddr` modulo
    /// `p_align`.
    ///
    /// Fails when the current model cannot be laid out.
    pub fn try_build(&self) -> (res: Result<Vec<u8>>)
        ensures
            match file_bytes_spec(*self) {
                None => res matches Err(e) && e.kind_spec() matches ErrorKind::Generic(m) && m@
                    == file_layout_error_of(*self),
                Some(b) => res matches Ok(v) && v@ == b,
            },
    {
        let class = self.ident.class;
        let endian = self.ident.data;
        let ehsize = ElfHeader::size(class);
        let phentsize = ProgramHeader::size(class);
        let mut out: Vec<u8> = vec![0u8; ehsize as usize];
        assert(out@ =~= Seq::new(ehsize as nat, |j: int| 0u8));
        let phoff = ehsize;
        let count = self.segments.len() as u64;
        let cursor = match phentsize.checked_mul(count) {
            Some(p) => phoff.saturating_add(p),
            None => u64::MAX,
        };
        assert(cursor == sat_int(ehdr_size(class) + phdr_size(class) * self.segments@.len()));
        let ghost sv = segment_views(self.segments@);
        let (phdrs, cursor) = place_segments_exec(&self.segments, &mut out, cursor)?;
        let mut shstrndx: u16 = 0;
        let mut sections = clone_sections(&self.sections);
        if sections.len() > 0 {
            shstrndx = ensure_shstrtab(&mut sections);
            assign_name_offsets(&mut sections);
        }
        assert((section_views(sections@), shstrndx) == layout_sections(section_views(self.sections@)));
        let (shdrs, cursor) = place_sections_exec(&sections, &mut out, cursor)?;
        let table = write_phdr_table(&phdrs, endian, class);
        write_at(&mut out, phoff, table.as_slice())?;
        if phdrs.len() > 0xffff {
            return Err(Error::generic("too many program headers for one table"));
        }
        if sections.len() > 0xffff {
            return Err(Error::generic("too many sections for one table"));
        }
        let mut header = self.header;
        header.phoff = phoff;
        header.ehsize = ehsize as u16;
        header.phentsize = phentsize as u16;
        header.phnum = phdrs.len() as u16;
        header.shnum = sections.len() as u16;
        header.shstrndx = shstrndx;
        header.shentsize = SectionHeader::size(class) as u16;
        if sections.len() == 0 {
            header.shoff = 0;
        } else {
            let shoff = align_up(cursor, 8);
            header.shoff = shoff;
            let stable = write_shdr_table(&shdrs, endian, class);
            write_at(&mut out, shoff, stable.as_slice())?;
        }
        assert(header == layout_header(
            self.header,
            class,
            phdrs@.len() as int,
            sections@.len() as int,
            shstrndx,
            header.shoff,
        ));
        let mut serialized: Vec<u8> = Vec::new();
        header.write(&mut serialized);
        proof {
            crate::header::lemma_elf_header_len(header);
        }
        write_at(&mut out, 0, serialized.as_slice())?;
        Ok(out)
    }

    /// Serializes the image in ELF file layout, for an image that can be laid
    /// out.
    pub fn build(&self) -> (res: Vec<u8>)
        requires
            file_bytes_spec(*self) is Some,
        ensures
            file_bytes_spec(*self) == Some(res@),
    {
        match self.try_build() {
            Ok(v) => v,
            Err(_) => {
                proof {
                    assert(false);
                }
                Vec::new()
            },
        }
    }
}

// ---- mapped layout ----------------------------------------------------

/// `buf` with the bytes of a loadable segment copied in at its
/// image-relative address, as far as `buf` reaches.
pub open spec fn load_copied(buf: Seq<u8>, s: Segment, base: u64) -> Seq<u8> {
    if s.header.kind.0 != SegmentType::LOAD || s.header.vaddr < base || s.header.vaddr - base
        > usize::MAX {
        buf
    } else {
        let start = s.header.vaddr - base;
        Seq::new(
            buf.len(),
            |j: int|
                if start <= j && j - start < s.data@.len() {
                    s.data@[j - start]
                } else {
                    buf[j]
                },
        )
    }
}

/// `buf` with `src` copied in at `start`, as far as `buf` reaches.
pub open spec fn clip_written(buf: Seq<u8>, start: int, src: Seq<u8>) -> Seq<u8> {
    Seq::new(
        buf.len(),
        |j: int|
            if start <= j && j - start < src.len() {
                src[j - start]
            } else {
                buf[j]
            },
    )
}

/// The headers a loader finds at the start of the image: the ELF header at
/// image offset zero and the program header table at `e_phoff`, as far as
/// the image reaches.
pub open spec fn with_headers(buf: Seq<u8>, img: ElfImage) -> Seq<u8> {
    let h = img.header_spec();
    let e = img.ident_spec().data;
    let class = img.ident_spec().class;
    let phdrs = img.segments_spec().map_values(|s: Segment| s.header);
    clip_written(clip_written(buf, 0, h.bytes_spec()), h.phoff as int, phdr_table_bytes(phdrs, e, class))
}

/// Copies `src` into `buf` at `start`, as far as `buf` reaches.
fn clip_copy(buf: &mut Vec<u8>, start: u64, src: &[u8])
    ensures
        final(buf)@ == clip_written(old(buf)@, start as int, src@),
{
    let n = buf.len();
    if start >= n as u64 {
        assert(buf@ =~= clip_written(old(buf)@, start as int, src@));
        return;
    }
    let begin = start as usize;
    let room = n - begin;
    let count = if src.len() < room {
        src.len()
    } else {
        room
    };
    let mut k: usize = 0;
    while k < count
        invariant
            k <= count,
            begin + count <= n,
            n == buf@.len(),
            n == old(buf)@.len(),
            count == (if src@.len() < room { src@.len() as int } else { room as int }),
            room == n - begin,
            forall|j: int| 0 <= j < n && !(begin <= j < begin + k) ==> buf@[j] == old(buf)@[j],
            forall|j: int| begin <= j < begin + k ==> buf@[j] == src@[j - begin],
        decreases count - k,
    {
        buf.set(begin + k, src[k]);
        k = k + 1;
    }
    assert(buf@ =~= clip_written(old(buf)@, start as int, src@));
}

/// `buf` with every loadable segment copied in, in order.
pub open spec fn copy_loads(segs: Seq<Segment>, base: u64, buf: Seq<u8>) -> Seq<u8>
    decreases segs.len(),
{
    if segs.len() == 0 {
        buf
    } else {
        load_copied(copy_loads(segs.drop_last(), base, buf), segs.last(), base)
    }
}

/// `a` reduced modulo 2^64.
pub open spec fn wrap64(a: int) -> u64 {
    (a % 0x1_0000_0000_0000_0000) as u64
}

/// `buf` with the pointer that a relative relocation names moved by
/// `delta`; unchanged for any other relocation or one outside `buf`.
pub open spec fn relocate_entry(
    buf: Seq<u8>,
    r: RelocationEntry,
    machine: u16,
    e: Endian,
    base: u64,
    delta: u64,
) -> Seq<u8> {
    if reloc_kind_spec(machine, r.r_type) != RelocKind::Relative || r.offset < base {
        buf
    } else {
        let start = r.offset - base;
        match reloc_width_spec(machine, r.r_type) {
            Some(4) => if start + 4 <= buf.len() {
                let stored = e.decode32(window(buf, start, 4));
                let moved = wrap64(stored + delta) as u32;
                buf.take(start) + e.encode32(moved) + buf.skip(start + 4)
            } else {
                buf
            },
            Some(8) => if start + 8 <= buf.len() {
                let stored = e.decode64(window(buf, start, 8));
                let moved = wrap64(stored + delta);
                buf.take(start) + e.encode64(moved) + buf.skip(start + 8)
            } else {
                buf
            },
            _ => buf,
        }
    }
}

/// `buf` with a list of relocations applied in order.
pub open spec fn relocate_all(
    buf: Seq<u8>,
    rs: Seq<RelocationEntry>,
    machine: u16,
    e: Endian,
    base: u64,
    delta: u64,
) -> Seq<u8>
    decreases rs.len(),
{
    if rs.len() == 0 {
        buf
    } else {
        relocate_entry(relocate_all(buf, rs.drop_last(), machine, e, base, delta), rs.last(), machine, e, base, delta)
    }
}

/// The entries of a list of relocation tables, in order.
pub open spec fn flat_entries(t: Seq<(bool, Seq<RelocationEntry>)>) -> Seq<RelocationEntry>
    decreases t.len(),
{
    if t.len() == 0 {
        Seq::empty()
    } else {
        flat_entries(t.drop_last()) + t.last().1
    }
}

/// The loader memory image of `img` placed at `base`, or `None` when the
/// mapped span passes [`MAX_IMAGE`] or, when `base` is not the preferred
/// base, the relocation tables cannot be parsed.
///
/// Each loadable segment sits at `p_vaddr - image_base`, the rest is zero;
/// the ELF header and the program header table then take the place a loader
/// maps them at. At another base every relative relocation adds the base
/// change to the pointer it names.
pub open spec fn mapped_bytes_spec(img: ElfImage, base: u64) -> Option<Seq<u8>> {
    let g = image_geometry(&img);
    if g.span > MAX_IMAGE {
        None
    } else {
        let buf = with_headers(
            copy_loads(img.segments_spec(), g.base, Seq::new(g.span as nat, |j: int| 0u8)),
            img,
        );
        if base == g.base {
            Some(buf)
        } else {
            match relocations_spec(img.sections_spec(), img.ident_spec().data, img.ident_spec().class) {
                None => None,
                Some(t) => Some(
                    relocate_all(
                        buf,
                        flat_entries(t),
                        img.header_spec().machine.0,
                        img.ident_spec().data,
                        g.base,
                        wrap64(base - g.base),
                    ),
                ),
            }
        }
    }
}

/// Naming the preferred base changes nothing: the mapped image at the
/// preferred base is the segment bytes and headers, with no relocation
/// applied.
pub proof fn lemma_mapped_at_preferred_base(img: ElfImage)
    ensures
        ({
            let g = image_geometry(&img);
            g.span <= MAX_IMAGE ==> mapped_bytes_spec(img, g.base) == Some(
                with_headers(
                    copy_loads(img.segments_spec(), g.base, Seq::new(g.span as nat, |j: int| 0u8)),
                    img,
                ),
            )
        }),
{
}

/// A relative relocation of a pointer that lies inside the image moves the
/// stored pointer by `delta`, modulo the pointer width, and leaves every
/// other byte alone.
pub proof fn lemma_relocate_entry_shifts(
    buf: Seq<u8>,
    r: RelocationEntry,
    machine: u16,
    e: Endian,
    base: u64,
    delta: u64,
)
    requires
        reloc_kind_spec(machine, r.r_type) == RelocKind::Relative,
        r.offset >= base,
        r.offset - base + 8 <= buf.len(),
    ensures
        ({
            let start = r.offset - base;
            let after = relocate_entry(buf, r, machine, e, base, delta);
            &&& after.len() == buf.len()
            &&& machine == 62 ==> e.decode64(window(after, start, 8)) == wrap64(
                e.decode64(window(buf, start, 8)) + delta,
            )
            &&& machine == 3 ==> e.decode32(window(after, start, 4)) == wrap64(
                e.decode32(window(buf, start, 4)) + delta,
            ) as u32
            &&& forall|j: int|
                0 <= j < buf.len() && !(start <= j < start + 8) ==> #[trigger] after[j] == buf[j]
        }),
{
    crate::reloc::lemma_relative_relocations_have_pointer_width(machine, r.r_type);
    let start = r.offset - base;
    let after = relocate_entry(buf, r, machine, e, base, delta);
    if machine == 62 {
        let moved = wrap64(e.decode64(window(buf, start, 8)) + delta);
        crate::ident::lemma_decode64_encode64(e, moved);
        assert(window(after, start, 8) =~= e.encode64(moved));
    } else {
        let moved = wrap64(e.decode32(window(buf, start, 4)) + delta) as u32;
        crate::ident::lemma_decode32_encode32(e, moved);
        assert(window(after, start, 4) =~= e.encode32(moved));
    }
}

/// Whether relocation `r` names a pointer slot that covers image byte `j`
/// when the image starts at `base`: it is a relative relocation of a known
/// width at or after `base`.
pub open spec fn relocation_covers(r: RelocationEntry, machine: u16, base: u64, j: int) -> bool {
    &&& reloc_kind_spec(machine, r.r_type) == RelocKind::Relative
    &&& r.offset >= base
    &&& reloc_width_spec(machine, r.r_type) matches Some(w) && r.offset - base <= j < r.offset - base + w
}

/// Applying one relocation keeps the length and every byte its slot does
/// not cover.
proof fn lemma_relocate_entry_frame(
    buf: Seq<u8>,
    r: RelocationEntry,
    machine: u16,
    e: Endian,
    base: u64,
    delta: u64,
    j: int,
)
    requires
        0 <= j < buf.len(),
        !relocation_covers(r, machine, base, j),
    ensures
        relocate_entry(buf, r, machine, e, base, delta).len() == buf.len(),
        relocate_entry(buf, r, machine, e, base, delta)[j] == buf[j],
{
    if reloc_kind_spec(machine, r.r_type) == RelocKind::Relative && r.offset >= base {
        let start = r.offset - base;
        match reloc_width_spec(machine, r.r_type) {
            Some(4) => {
                if start + 4 <= buf.len() {
                    let moved = wrap64(e.decode32(window(buf, start, 4)) + delta) as u32;
                    crate::ident::lemma_decode32_encode32(e, moved);
                }
            },
            Some(8) => {
                if start + 8 <= buf.len() {
                    let moved = wrap64(e.decode64(window(buf, start, 8)) + delta);
                    crate::ident::lemma_decode64_encode64(e, moved);
                }
            },
            _ => {},
        }
    }
}

/// Rebasing leaves alone every byte that the slot of no relative
/// relocation covers: the bytes of other relocations, indirect-function
/// slots among them, and every other byte keep their values.
pub proof fn lemma_relocate_all_frame(
    buf: Seq<u8>,
    rs: Seq<RelocationEntry>,
    machine: u16,
    e: Endian,
    base: u64,
    delta: u64,
    j: int,
)
    requires
        0 <= j < buf.len(),
        forall|k: int| 0 <= k < rs.len() ==> !relocation_covers(#[trigger] rs[k], machine, base, j),
    ensures
        relocate_all(buf, rs, machine, e, base, delta).len() == buf.len(),
        relocate_all(buf, rs, machine, e, base, delta)[j] == buf[j],
    decreases rs.len(),
{
    if rs.len() > 0 {
        let n = rs.len() - 1;
        assert(!relocation_covers(rs[n], machine, base, j));
        assert forall|k: int| 0 <= k < n implies !relocation_covers(
            #[trigger] rs.drop_last()[k],
            machine,
            base,
            j,
        ) by {
            assert(!relocation_covers(rs[k], machine, base, j));
        }
        lemma_relocate_all_frame(buf, rs.drop_last(), machine, e, base, delta, j);
        lemma_relocate_entry_frame(
            relocate_all(buf, rs.drop_last(), machine, e, base, delta),
            rs.last(),
            machine,
            e,
            base,
            delta,
            j,
        );
    }
}

/// Extracts four bytes at `start`.
fn read_array4(bytes: &Vec<u8>, start: usize) -> (res: [u8; 4])
    requires
        start + 4 <= bytes@.len(),
    ensures
        res@ == window(bytes@, start as int, 4),
{
    let n = bytes.len();
    let a = [bytes[start], bytes[start + 1], bytes[start + 2], bytes[start + 3]];
    assert(a@ =~= window(bytes@, start as int, 4));
    a
}

/// Extracts eight bytes at `start`.
fn read_array8(bytes: &Vec<u8>, start: usize) -> (res: [u8; 8])
    requires
        start + 8 <= bytes@.len(),
    ensures
        res@ == window(bytes@, start as int, 8),
{
    let n = bytes.len();
    let a = [
        bytes[start],
        bytes[start + 1],
        bytes[start + 2],
        bytes[start + 3],
        bytes[start + 4],
        bytes[start + 5],
        bytes[start + 6],
        bytes[start + 7],
    ];
    assert(a@ =~= window(bytes@, start as int, 8));
    a
}

/// Replaces the bytes at `start` with `src`.
fn overwrite(buf: &mut Vec<u8>, start: usize, src: &[u8])
    requires
        start + src@.len() <= old(buf)@.len(),
    ensures
        final(buf)@ == old(buf)@.take(start as int) + src@ + old(buf)@.skip(start + src@.len()),
{
    let n = buf.len();
    let mut k: usize = 0;
    while k < src.len()
        invariant
            k <= src@.len(),
            n == buf@.len(),
            start + src@.len() <= buf@.len(),
            buf@.len() == old(buf)@.len(),
            forall|j: int| 0 <= j < start ==> buf@[j] == old(buf)@[j],
            forall|j: int| start + src@.len() <= j < buf@.len() ==> buf@[j] == old(buf)@[j],
            forall|j: int| 0 <= j < k ==> buf@[start + j] == src@[j],
        decreases src@.len() - k,
    {
        buf.set(start + k, src[k]);
        k = k + 1;
    }
    assert(buf@ =~= old(buf)@.take(start as int) + src@ + old(buf)@.skip(start + src@.len()));
}

/// Applies one relative relocation to a mapped image.
fn relocate_one(
    image: &mut Vec<u8>,
    entry: &RelocationEntry,
    machine: crate::header::Machine,
    endian: Endian,
    base: u64,
    delta: u64,
)
    ensures
        final(image)@ == relocate_entry(old(image)@, *entry, machine.0, endian, base, delta),
{
    match relocation_kind(machine, entry.r_type) {
        RelocKind::Relative => {},
        _ => {
            return;
        },
    }
    let width = match relocation_width(machine, entry.r_type) {
        Some(w) => w,
        None => {
            return;
        },
    };
    if entry.offset < base {
        return;
    }
    let offset = entry.offset - base;
    if width == 4 {
        if offset > image.len() as u64 || image.len() - (offset as usize) < 4 {
            return;
        }
        let start = offset as usize;
        let stored = endian.u32(read_array4(image, start)) as u64;
        let relocated = stored.wrapping_add(delta);
        let bytes = endian.u32_bytes(crate::low32(relocated));
        proof {
            assert(relocated == wrap64(stored + delta));
        }
        overwrite(image, start, &bytes);
    } else if width == 8 {
        if offset > image.len() as u64 || image.len() - (offset as usize) < 8 {
            return;
        }
        let start = offset as usize;
        let stored = endian.u64(read_array8(image, start));
        let relocated = stored.wrapping_add(delta);
        let bytes = endian.u64_bytes(relocated);
        proof {
            assert(relocated == wrap64(stored + delta));
        }
        overwrite(image, start, &bytes);
    }
}

impl ElfImage {
    /// Serializes the image as a loader memory image at its preferred base.
    pub fn to_mapped_image(&self) -> (res: Result<Vec<u8>>)
        ensures
            match mapped_bytes_spec(*self, image_geometry(self).base) {
                None => res is Err,
                Some(b) => res matches Ok(v) && v@ == b,
            },
    {
        self.to_mapped_image_at(self.image_base())
    }

    /// Serializes the image as a loader memory image at `base`.
    ///
    /// Each loadable segment is placed at `p_vaddr - image_base` and zero-filled
    /// to its memory size. The ELF header and the program header table then
    /// sit at the start of the image, where a loader maps them, so the image
    /// parses back as a mapped image. When `base` differs from the preferred
    /// base, relative relocations add the base change to every stored pointer.
    pub fn to_mapped_image_at(&self, base: u64) -> (res: Result<Vec<u8>>)
        ensures
            match mapped_bytes_spec(*self, base) {
                None => res is Err,
                Some(b) => res matches Ok(v) && v@ == b,
            },
    {
        let image_base = self.image_base();
        let span_u64 = self.image_span();
        if span_u64 > MAX_IMAGE as u64 {
            return Err(Error::generic("mapped image exceeds the 256 MiB layout limit"));
        }
        let span = span_u64 as usize;
        let mut image: Vec<u8> = vec![0u8; span];
        let ghost zeros = image@;
        assert(zeros =~= Seq::new(span_u64 as nat, |j: int| 0u8));
        let mut i: usize = 0;
        while i < self.segments.len()
            invariant
                i <= self.segments@.len(),
                image_base == image_geometry(self).base,
                image@ == copy_loads(self.segments@.take(i as int), image_base, zeros),
                image@.len() == span,
            decreases self.segments@.len() - i,
        {
            proof {
                assert(self.segments@.take(i + 1).drop_last() =~= self.segments@.take(i as int));
            }
            let segment = &self.segments[i];
            if segment.header.kind.0 == SegmentType::LOAD && segment.header.vaddr >= image_base
                && segment.header.vaddr - image_base <= usize::MAX as u64 {
                let start = (segment.header.vaddr - image_base) as usize;
                let room = if image.len() > start {
                    image.len() - start
                } else {
                    0
                };
                let count = if segment.data.len() < room {
                    segment.data.len()
                } else {
                    room
                };
                let ghost before = image@;
                let mut k: usize = 0;
                while k < count
                    invariant
                        k <= count,
                        count <= segment.data@.len(),
                        start + count <= image@.len() || count == 0,
                        image@.len() == before.len(),
                        before.len() == span,
                        count == (if segment.data@.len() < room { segment.data@.len() as int } else { room as int }),
                        room == (if before.len() > start { before.len() - start } else { 0 }),
                        forall|j: int| 0 <= j < image@.len() && !(start <= j < start + k) ==> image@[j] == before[j],
                        forall|j: int| start <= j < start + k ==> image@[j] == segment.data@[j - start],
                    decreases count - k,
                {
                    image.set(start + k, segment.data[k]);
                    k = k + 1;
                }
                proof {
                    assert(image@ =~= load_copied(before, *segment, image_base));
                }
            }
            i = i + 1;
        }
        proof {
            assert(self.segments@.take(self.segments@.len() as int) =~= self.segments@);
        }
        let mut header_bytes: Vec<u8> = Vec::new();
        self.header.write(&mut header_bytes);
        clip_copy(&mut image, 0, header_bytes.as_slice());
        let mut phdrs: Vec<ProgramHeader> = Vec::new();
        let mut j: usize = 0;
        while j < self.segments.len()
            invariant
                j <= self.segments@.len(),
                phdrs@ == self.segments@.take(j as int).map_values(|s: Segment| s.header),
            decreases self.segments@.len() - j,
        {
            phdrs.push(self.segments[j].header);
            proof {
                assert(self.segments@.take(j + 1).map_values(|s: Segment| s.header) =~= self.segments@.take(
                    j as int,
                ).map_values(|s: Segment| s.header).push(self.segments@[j as int].header));
            }
            j = j + 1;
        }
        proof {
            assert(self.segments@.take(self.segments@.len() as int) =~= self.segments@);
        }
        let table = write_phdr_table(&phdrs, self.ident.data, self.ident.class);
        clip_copy(&mut image, self.header.phoff, table.as_slice());
        if base != image_base {
            self.apply_relative_relocations(&mut image, base)?;
        }
        Ok(image)
    }

    fn apply_relative_relocations(&self, image: &mut Vec<u8>, base: u64) -> (res: Result<()>)
        ensures
            match relocations_spec(self.sections_spec(), self.ident_spec().data, self.ident_spec().class) {
                None => res is Err,
                Some(t) => res is Ok && final(image)@ == relocate_all(
                    old(image)@,
                    flat_entries(t),
                    self.header_spec().machine.0,
                    self.ident_spec().data,
                    image_geometry(self).base,
                    wrap64(base - image_geometry(self).base),
                ),
            },
    {
        let image_base = self.image_base();
        let delta = base.wrapping_sub(image_base);
        assert(delta == wrap64(base - image_base)) by {
            assert(base - image_base + 0x1_0000_0000_0000_0000 == base + (0x1_0000_0000_0000_0000 - image_base));
        }
        let machine = self.header.machine;
        let endian = self.ident.data;
        let tables = self.relocations()?;
        let ghost t = tables@.map_values(|r: crate::reloc::RelocationSection| (r.is_rela, r.entries@));
        let mut ti: usize = 0;
        while ti < tables.len()
            invariant
                ti <= tables@.len(),
                t == tables@.map_values(|r: crate::reloc::RelocationSection| (r.is_rela, r.entries@)),
                image@ == relocate_all(old(image)@, flat_entries(t.take(ti as int)), machine.0, endian, image_base, delta),
            decreases tables@.len() - ti,
        {
            let entries = tables[ti].entries();
            let ghost done = flat_entries(t.take(ti as int));
            let mut k: usize = 0;
            while k < entries.len()
                invariant
                    k <= entries@.len(),
                    image@ == relocate_all(old(image)@, done + entries@.take(k as int), machine.0, endian, image_base, delta),
                decreases entries@.len() - k,
            {
                proof {
                    assert((done + entries@.take(k + 1)).drop_last() =~= done + entries@.take(k as int));
                }
                relocate_one(image, &entries[k], machine, endian, image_base, delta);
                k = k + 1;
            }
            proof {
                assert(t.take(ti + 1).drop_last() =~= t.take(ti as int));
                assert(done + entries@.take(entries@.len() as int) =~= flat_entries(t.take(ti + 1)));
            }
            ti = ti + 1;
        }
        proof {
            assert(t.take(t.len() as int) =~= t);
        }
        Ok(())
    }
}

/// The serialized program header table holds one entry per header.
pub(crate) proof fn lemma_phdr_table_len(ph: Seq<ProgramHeader>, e: Endian, class: ElfClass)
    ensures
        phdr_table_bytes(ph, e, class).len() == ph.len() * phdr_size(class),
    decreases ph.len(),
{
    if ph.len() > 0 {
        lemma_phdr_table_len(ph.drop_last(), e, class);
        lemma_phdr_bytes_len(ph.last(), e, class);
        assert((ph.len() - 1) * phdr_size(class) + phdr_size(class) == ph.len() * phdr_size(class))
            by (nonlinear_arith);
    }
}

} // verus!

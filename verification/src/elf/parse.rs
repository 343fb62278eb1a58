//! Parsing an [`ElfImage`] from file or mapped byte layouts.

use vstd::prelude::*;

use crate::error::{Error, Result};
use crate::header::{headers_of, ElfHeader, ElfHeaders};
use crate::parse_utils::sat_sub;
use crate::program::{ProgramHeader, Segment, SegmentType};
use crate::reader::{available, in_range, min_int, window, ReadAt, SliceReader};
use crate::section::{shdr_size, Section, SectionHeader, SectionType};
use crate::strtab::{string_or_empty, StringTable};

use super::inspect::zero_extended;
use super::{geometry, geometry_spec, image_geometry, ElfImage, LoadRecord};

verus! {

/// The largest length an untrusted size field may claim (256 MiB).
///
/// Prevents an absurdly large header field from triggering an
/// out-of-memory abort before the reader can reject it.
pub const MAX_ALLOC: u64 = 0x1000_0000;

/// The byte layout of an ELF byte source.
#[derive(Debug, Clone, Copy, PartialEq, Eq, Hash, Structural)]
pub enum Layout {
    /// Raw file layout addressed by file offsets.
    File,
    /// Loader-mapped layout addressed by image-relative offsets.
    Mapped,
}

/// The length limit for a source whose size is `size` when known.
pub open spec fn alloc_cap(size: Option<u64>) -> u64 {
    match size {
        Some(s) => if s < MAX_ALLOC {
            s
        } else {
            MAX_ALLOC
        },
        None => MAX_ALLOC,
    }
}

/// The bytes of `c` as seen from `base` on.
pub open spec fn shifted(c: Seq<u8>, base: u64) -> Seq<u8> {
    if base <= c.len() {
        c.skip(base as int)
    } else {
        Seq::empty()
    }
}

/// `b` with the bytes of `c` from `off` on laid over it, as far as `c`
/// reaches.
pub open spec fn overlay(c: Seq<u8>, off: int, b: Seq<u8>) -> Seq<u8> {
    Seq::new(b.len(), |j: int| if off + j < c.len() { c[off + j] } else { b[j] })
}

// ---- section header table -------------------------------------------------

/// The stride of the section header table: the declared entry size, but no
/// less than one serialized header.
pub open spec fn shdr_stride(h: ElfHeader) -> int {
    if h.shentsize >= shdr_size(h.ident.class) {
        h.shentsize as int
    } else {
        shdr_size(h.ident.class)
    }
}

/// The file offset of section header `i`, saturated at `u64::MAX`.
pub open spec fn shdr_offset(h: ElfHeader, i: int) -> int {
    let o = h.shoff + i * shdr_stride(h);
    if o <= u64::MAX {
        o
    } else {
        u64::MAX as int
    }
}

/// Whether every section header of `h` lies inside `c` below `u64::MAX`.
pub open spec fn shdr_table_ok(c: Seq<u8>, h: ElfHeader) -> bool {
    forall|i: int|
        0 <= i < h.shnum ==> shdr_offset(h, i) + shdr_size(h.ident.class) <= u64::MAX && in_range(
            c,
            #[trigger] shdr_offset(h, i),
            shdr_size(h.ident.class),
        )
}

/// The section header table of `h` in `c`.
pub open spec fn shdr_table(c: Seq<u8>, h: ElfHeader) -> Seq<SectionHeader> {
    Seq::new(
        h.shnum as nat,
        |i: int| SectionHeader::from_bytes(c, shdr_offset(h, i), h.ident.data, h.ident.class),
    )
}

/// Whether `h` declares a section header table.
pub open spec fn section_table_present(h: ElfHeader) -> bool {
    h.shoff != 0 && h.shnum != 0
}

// ---- file layout ----------------------------------------------------------

/// Whether the file bytes of a segment can be read from `c`.
pub open spec fn file_segment_ok(c: Seq<u8>, h: ProgramHeader) -> bool {
    h.kind.0 == SegmentType::NULL || h.filesz == 0 || (h.filesz <= MAX_ALLOC && in_range(
        c,
        h.offset as int,
        h.filesz as int,
    ))
}

/// The bytes a file-layout segment holds.
pub open spec fn file_segment_bytes(c: Seq<u8>, h: ProgramHeader) -> Seq<u8> {
    if h.kind.0 == SegmentType::NULL || h.filesz == 0 {
        Seq::empty()
    } else {
        window(c, h.offset as int, h.filesz as int)
    }
}

/// Whether the file bytes of a section can be read from `c`.
pub open spec fn file_section_ok(c: Seq<u8>, s: SectionHeader) -> bool {
    s.nobits_spec() || s.size == 0 || (s.size <= MAX_ALLOC && in_range(
        c,
        s.offset as int,
        s.size as int,
    ))
}

/// The bytes a file-layout section holds.
pub open spec fn file_section_bytes(c: Seq<u8>, s: SectionHeader) -> Seq<u8> {
    if s.nobits_spec() || s.size == 0 {
        Seq::empty()
    } else {
        window(c, s.offset as int, s.size as int)
    }
}

/// Whether the section-name string table that `h` names is a readable
/// string table.
pub open spec fn shstrtab_ok(c: Seq<u8>, h: ElfHeader, raw: Seq<SectionHeader>) -> bool {
    let i = h.shstrndx as int;
    &&& i < raw.len()
    &&& raw[i].kind.0 == SectionType::STRTAB
    &&& raw[i].size <= MAX_ALLOC
    &&& in_range(c, raw[i].offset as int, raw[i].size as int)
}

/// The bytes of the section-name string table that `h` names.
pub open spec fn shstrtab_bytes(c: Seq<u8>, h: ElfHeader, raw: Seq<SectionHeader>) -> Seq<u8> {
    let s = raw[h.shstrndx as int];
    window(c, s.offset as int, s.size as int)
}

/// The name of section `i` from the section-name string table, or the
/// empty name when that table cannot be read.
pub open spec fn file_section_name(c: Seq<u8>, h: ElfHeader, raw: Seq<SectionHeader>, i: int) -> Seq<
    char,
> {
    if shstrtab_ok(c, h, raw) {
        string_or_empty(shstrtab_bytes(c, h, raw), raw[i].name_index as int)
    } else {
        Seq::empty()
    }
}

/// Whether every section of the table `h` declares can be read from `c`.
pub open spec fn file_sections_ok(c: Seq<u8>, h: ElfHeader) -> bool {
    section_table_present(h) ==> shdr_table_ok(c, h) && forall|i: int|
        0 <= i < h.shnum ==> file_section_ok(c, #[trigger] shdr_table(c, h)[i])
}

/// Whether `secs` have the headers and bytes of the sections `c` holds in
/// file layout for header `h`.
pub open spec fn file_sections_shape(c: Seq<u8>, h: ElfHeader, secs: Seq<Section>) -> bool {
    if !section_table_present(h) {
        secs.len() == 0
    } else {
        let raw = shdr_table(c, h);
        &&& secs.len() == raw.len()
        &&& forall|i: int| 0 <= i < raw.len() ==> #[trigger] secs[i].header == raw[i]
        &&& forall|i: int| 0 <= i < raw.len() ==> #[trigger] secs[i].data@ == file_section_bytes(c, raw[i])
    }
}

/// Whether `secs` carry the names the section-name string table of `c`
/// gives them.
pub open spec fn file_sections_named(c: Seq<u8>, h: ElfHeader, secs: Seq<Section>) -> bool {
    section_table_present(h) ==> forall|i: int|
        0 <= i < secs.len() ==> #[trigger] secs[i].name@ == file_section_name(c, h, shdr_table(c, h), i)
}

/// Whether `c` holds a complete ELF object in file layout.
pub open spec fn file_layout_ok(c: Seq<u8>) -> bool {
    match headers_of(c) {
        None => false,
        Some((_, header, hs)) => (forall|i: int| 0 <= i < hs.len() ==> file_segment_ok(c, #[trigger] hs[i]))
            && file_sections_ok(c, header),
    }
}

/// Whether `img` holds the headers, segments, and section headers and bytes
/// that `c` holds in file layout.
pub open spec fn file_image_shape(c: Seq<u8>, img: ElfImage) -> bool {
    match headers_of(c) {
        None => false,
        Some((ident, header, hs)) => {
            let segs = img.segments_spec();
            &&& img.ident_spec() == ident
            &&& img.header_spec() == header
            &&& segs.len() == hs.len()
            &&& forall|i: int| 0 <= i < hs.len() ==> #[trigger] segs[i].header == hs[i]
            &&& forall|i: int| 0 <= i < hs.len() ==> #[trigger] segs[i].data@ == file_segment_bytes(c, hs[i])
            &&& file_sections_shape(c, header, img.sections_spec())
        },
    }
}

/// Whether `img` is the object `c` holds in file layout, section names
/// included.
pub open spec fn file_image_matches(c: Seq<u8>, img: ElfImage) -> bool {
    &&& file_image_shape(c, img)
    &&& file_sections_named(c, img.header_spec(), img.sections_spec())
}

// ---- mapped layout --------------------------------------------------------

/// The load records of the `PT_LOAD` program headers, in order.
pub open spec fn header_load_records(hs: Seq<ProgramHeader>) -> Seq<LoadRecord>
    decreases hs.len(),
{
    if hs.len() == 0 {
        Seq::empty()
    } else {
        let rest = header_load_records(hs.drop_last());
        let h = hs.last();
        if h.kind.0 == SegmentType::LOAD {
            rest.push((h.vaddr, h.memsz, h.align))
        } else {
            rest
        }
    }
}

/// The preferred image base that a program header table describes.
pub open spec fn header_image_base(hs: Seq<ProgramHeader>) -> u64 {
    geometry_spec(header_load_records(hs)).base
}

/// The number of bytes a mapped segment covers: the memory size of a
/// loadable segment, the file size of any other.
pub open spec fn mapped_length(h: ProgramHeader) -> u64 {
    if h.kind.0 == SegmentType::LOAD {
        h.memsz
    } else {
        h.filesz
    }
}

/// Whether a mapped segment fits the length limit `cap`.
pub open spec fn mapped_segment_ok(cap: u64, h: ProgramHeader) -> bool {
    h.kind.0 == SegmentType::NULL || mapped_length(h) == 0 || mapped_length(h) <= cap
}

/// The bytes of a mapped segment, zero-filled where the source ends.
pub open spec fn mapped_segment_bytes(c: Seq<u8>, base: u64, h: ProgramHeader) -> Seq<u8> {
    if h.kind.0 == SegmentType::NULL || mapped_length(h) == 0 {
        Seq::empty()
    } else {
        zero_extended(c, sat_sub(h.vaddr as int, base as int), mapped_length(h) as int)
    }
}

/// Whether `c` holds the headers of a mapped ELF image whose segments fit
/// the length limit `cap`.
pub open spec fn mapped_layout_ok(c: Seq<u8>, cap: u64) -> bool {
    match headers_of(c) {
        None => false,
        Some((_, _, hs)) => forall|i: int| 0 <= i < hs.len() ==> mapped_segment_ok(cap, #[trigger] hs[i]),
    }
}

/// Where a mapped section's bytes start: its image-relative address when it
/// is allocated, its file offset otherwise.
pub open spec fn mapped_start(s: SectionHeader, base: u64) -> int {
    if s.flags.alloc_spec() {
        sat_sub(s.addr as int, base as int)
    } else {
        s.offset as int
    }
}

/// The number of bytes a mapped section covers.
pub open spec fn mapped_section_length(s: SectionHeader) -> u64 {
    if s.nobits_spec() {
        0
    } else {
        s.size
    }
}

/// The section-name string table of a mapped image, or empty bytes.
pub open spec fn mapped_strtab(c: Seq<u8>, cap: u64, base: u64, h: ElfHeader, raw: Seq<SectionHeader>) -> Seq<u8> {
    let i = h.shstrndx as int;
    if i < raw.len() && raw[i].kind.0 == SectionType::STRTAB && raw[i].size <= cap {
        zero_extended(c, mapped_start(raw[i], base), raw[i].size as int)
    } else {
        Seq::empty()
    }
}

/// The sections of a mapped image, as headers, names, and bytes; a section
/// longer than `cap` is left out.
pub open spec fn mapped_sections_from(
    c: Seq<u8>,
    cap: u64,
    base: u64,
    raw: Seq<SectionHeader>,
    tab: Seq<u8>,
) -> Seq<(SectionHeader, Seq<char>, Seq<u8>)>
    decreases raw.len(),
{
    if raw.len() == 0 {
        Seq::empty()
    } else {
        let rest = mapped_sections_from(c, cap, base, raw.drop_last(), tab);
        let s = raw.last();
        if mapped_section_length(s) > cap {
            rest
        } else {
            rest.push(
                (
                    s,
                    string_or_empty(tab, s.name_index as int),
                    zero_extended(c, mapped_start(s, base), mapped_section_length(s) as int),
                ),
            )
        }
    }
}

/// The sections of a mapped image; none when the section header table
/// cannot be read.
pub open spec fn mapped_sections_spec(c: Seq<u8>, cap: u64, base: u64, h: ElfHeader) -> Seq<
    (SectionHeader, Seq<char>, Seq<u8>),
> {
    if !shdr_table_ok(c, h) {
        Seq::empty()
    } else {
        let raw = shdr_table(c, h);
        mapped_sections_from(c, cap, base, raw, mapped_strtab(c, cap, base, h, raw))
    }
}

/// Whether `img` holds the headers, segments, and sections that `c` holds in
/// mapped layout, with the length limit `cap`.
pub open spec fn mapped_image_matches(c: Seq<u8>, cap: u64, img: ElfImage) -> bool {
    match headers_of(c) {
        None => false,
        Some((ident, header, hs)) => {
            let segs = img.segments_spec();
            let base = header_image_base(hs);
            &&& img.ident_spec() == ident
            &&& img.header_spec() == header
            &&& segs.len() == hs.len()
            &&& forall|i: int| 0 <= i < hs.len() ==> #[trigger] segs[i].header == hs[i]
            &&& forall|i: int| 0 <= i < hs.len() ==> #[trigger] segs[i].data@ == mapped_segment_bytes(c, base, hs[i])
            &&& section_views(img.sections_spec()) == mapped_sections_spec(c, cap, base, header)
        },
    }
}

/// The mapped layout of the bytes fixes the image: two images that both
/// hold what `c` holds in mapped layout have the same identification,
/// header, segments, sections, and image geometry; they can differ only in
/// their runtime base. So parsing a mapped image at a runtime base finds what
/// parsing it at its preferred base finds.
pub proof fn lemma_mapped_image_unique(c: Seq<u8>, cap: u64, m: ElfImage, r: ElfImage)
    requires
        mapped_image_matches(c, cap, m),
        mapped_image_matches(c, cap, r),
    ensures
        r.ident_spec() == m.ident_spec(),
        r.header_spec() == m.header_spec(),
        super::serialize::segment_views(r.segments_spec()) == super::serialize::segment_views(
            m.segments_spec(),
        ),
        section_views(r.sections_spec()) == section_views(m.sections_spec()),
        super::image_geometry(&r) == super::image_geometry(&m),
{
    let (_, _, hs) = headers_of(c)->0;
    let rs = r.segments_spec();
    let ms = m.segments_spec();
    assert forall|i: int| 0 <= i < rs.len() implies super::serialize::segment_views(rs)[i]
        == super::serialize::segment_views(ms)[i] by {
        assert(rs[i].header == hs[i]);
        assert(ms[i].header == hs[i]);
    }
    assert(super::serialize::segment_views(rs) =~= super::serialize::segment_views(ms));
    lemma_header_load_records(rs, hs);
    lemma_header_load_records(ms, hs);
}

/// Validates `length` against the source size and returns it as `usize`.
fn checked_len(length: u64, source_size: Option<u64>) -> (res: Result<usize>)
    ensures
        res is Ok <==> length <= alloc_cap(source_size),
        res matches Ok(n) ==> n == length,
{
    let cap = match source_size {
        Some(s) => if s < MAX_ALLOC {
            s
        } else {
            MAX_ALLOC
        },
        None => MAX_ALLOC,
    };
    if length > cap {
        return Err(
            Error::generic("ELF structure size exceeds the source or the allocation limit"),
        );
    }
    Ok(length as usize)
}

/// Allocates a zero-filled vector after validating `length`.
fn checked_alloc(length: u64, source_size: Option<u64>) -> (res: Result<Vec<u8>>)
    ensures
        res is Ok <==> length <= alloc_cap(source_size),
        res matches Ok(v) ==> v@ == Seq::new(length as nat, |j: int| 0u8),
{
    let len = checked_len(length, source_size)?;
    let v: Vec<u8> = vec![0u8; len];
    assert(v@ =~= Seq::new(length as nat, |j: int| 0u8));
    Ok(v)
}

/// Reads as many bytes as the source supplies at `offset` into `buffer` and
/// leaves the rest as it was.
fn read_lenient<R: ReadAt>(reader: &R, offset: u64, buffer: &mut Vec<u8>)
    ensures
        final(buffer)@.len() == old(buffer)@.len(),
        reader.reads_fully() ==> final(buffer)@ == overlay(
            reader.contents(),
            offset as int,
            old(buffer)@,
        ),
{
    let ghost c = reader.contents();
    let ghost full = reader.reads_fully();
    let len = buffer.len();
    let mut filled: usize = 0;
    proof {
        assert(buffer@.subrange(0, 0) =~= window(c, offset as int, 0));
    }
    while filled < len
        invariant_except_break
            filled <= len,
            len == old(buffer)@.len(),
            buffer@.len() == len,
            c == reader.contents(),
            full == reader.reads_fully(),
            full ==> in_range(c, offset as int, filled as int),
            full ==> buffer@.subrange(0, filled as int) == window(c, offset as int, filled as int),
            buffer@.skip(filled as int) == old(buffer)@.skip(filled as int),
            filled > 0 ==> (full ==> c.len() <= u64::MAX),
            full ==> filled <= available(c, offset as int) || filled == 0,
        ensures
            filled <= len,
            buffer@.len() == len,
            full ==> in_range(c, offset as int, filled as int),
            full ==> buffer@.subrange(0, filled as int) == window(c, offset as int, filled as int),
            buffer@.skip(filled as int) == old(buffer)@.skip(filled as int),
            full ==> filled == min_int(available(c, offset as int), len as int),
        decreases len - filled,
    {
        let current = match offset.checked_add(filled as u64) {
            Some(v) => v,
            None => {
                proof {
                    if reader.reads_fully() {
                        assert(filled == 0 || offset + filled <= c.len());
                    }
                }
                break;
            },
        };
        let remaining = len - filled;
        let mut chunk: Vec<u8> = vec![0u8; remaining];
        let count = match reader.read_at(current, chunk.as_mut_slice()) {
            Ok(n) => n,
            Err(_) => break,
        };
        if count == 0 || count > remaining {
            proof {
                if reader.reads_fully() {
                    assert(available(c, current as int) == 0);
                }
            }
            break;
        }
        let ghost before = buffer@;
        let mut k: usize = 0;
        while k < count
            invariant
                k <= count,
                filled + count <= len,
                buffer@.len() == len,
                chunk@.len() >= count,
                buffer@.subrange(0, filled as int) == before.subrange(0, filled as int),
                forall|j: int| filled + count <= j < len ==> buffer@[j] == before[j],
                forall|j: int| 0 <= j < k ==> buffer@[filled + j] == chunk@[j],
            decreases count - k,
        {
            buffer.set(filled + k, chunk[k]);
            k = k + 1;
        }
        proof {
            if full {
                assert(chunk@.subrange(0, count as int) == window(c, current as int, count as int));
                assert forall|j: int| 0 <= j < filled + count implies buffer@[j] == c[offset + j] by {
                    if j < filled {
                        assert(buffer@.subrange(0, filled as int)[j] == window(
                            c,
                            offset as int,
                            filled as int,
                        )[j]);
                    } else {
                        assert(chunk@.subrange(0, count as int)[j - filled] == window(
                            c,
                            current as int,
                            count as int,
                        )[j - filled]);
                    }
                }
                assert(buffer@.subrange(0, (filled + count) as int) =~= window(
                    c,
                    offset as int,
                    (filled + count) as int,
                ));
            }
            assert(buffer@.skip((filled + count) as int) =~= old(buffer)@.skip(
                (filled + count) as int,
            )) by {
                assert forall|j: int| 0 <= j < len - (filled + count) implies #[trigger] buffer@.skip(
                    (filled + count) as int,
                )[j] == old(buffer)@.skip((filled + count) as int)[j] by {
                    assert(before.skip(filled as int)[j + count] == old(buffer)@.skip(
                        filled as int,
                    )[j + count]);
                }
            }
        }
        filled = filled + count;
    }
    proof {
        if reader.reads_fully() {
            let o = overlay(c, offset as int, old(buffer)@);
            assert forall|j: int| 0 <= j < len implies #[trigger] buffer@[j] == o[j] by {
                if j < filled {
                    assert(buffer@.subrange(0, filled as int)[j] == window(
                        c,
                        offset as int,
                        filled as int,
                    )[j]);
                } else {
                    assert(buffer@.skip(filled as int)[j - filled] == old(buffer)@.skip(
                        filled as int,
                    )[j - filled]);
                }
            }
            assert(buffer@ =~= o);
        }
    }
}

/// The load records of a program header table are those of segments with
/// the same headers.
pub proof fn lemma_header_load_records(segs: Seq<Segment>, hs: Seq<ProgramHeader>)
    requires
        segs.len() == hs.len(),
        forall|i: int| 0 <= i < hs.len() ==> #[trigger] segs[i].header == hs[i],
    ensures
        super::load_records_spec(segs) == header_load_records(hs),
    decreases hs.len(),
{
    if hs.len() > 0 {
        lemma_header_load_records(segs.drop_last(), hs.drop_last());
    }
}

/// Computes the preferred image base from the loadable program headers.
fn compute_image_base(program_headers: &Vec<ProgramHeader>) -> (res: u64)
    ensures
        res == header_image_base(program_headers@),
{
    let ghost hs = program_headers@;
    let mut loads: Vec<LoadRecord> = Vec::new();
    let mut i: usize = 0;
    while i < program_headers.len()
        invariant
            i <= hs.len(),
            hs == program_headers@,
            loads@ == header_load_records(hs.take(i as int)),
        decreases hs.len() - i,
    {
        proof {
            assert(hs.take(i + 1).drop_last() =~= hs.take(i as int));
        }
        let h = program_headers[i];
        if h.kind.0 == SegmentType::LOAD {
            loads.push((h.vaddr, h.memsz, h.align));
        }
        i = i + 1;
    }
    assert(hs.take(hs.len() as int) =~= hs);
    geometry(&loads).base
}

/// Reads the section header table that `headers` declares.
///
/// A header whose offset leaves no room for a whole entry below `u64::MAX`
/// cannot be read and fails like any other unreadable header.
fn read_section_headers<R: ReadAt>(reader: &R, headers: &ElfHeaders) -> (res: Result<
    Vec<SectionHeader>,
>)
    requires
        reader.reads_fully() ==> headers_of(reader.contents()) == Some(headers@),
    ensures
        reader.reads_fully() ==> (res is Ok <==> shdr_table_ok(reader.contents(), headers.header)),
        reader.reads_fully() ==> (res matches Ok(v) ==> v@ == shdr_table(
            reader.contents(),
            headers.header,
        )),
{
    let ghost c = reader.contents();
    let ghost full = reader.reads_fully();
    let ghost h = headers.header;
    let endian = headers.header.ident.data;
    let class = headers.header.ident.class;
    let entry = SectionHeader::size(class);
    let declared = headers.header.shentsize as u64;
    let stride = if declared >= entry {
        declared
    } else {
        entry
    };
    let count = headers.header.shnum as u64;
    let mut raw: Vec<SectionHeader> = Vec::new();
    let mut index: u64 = 0;
    while index < count
        invariant
            index <= count,
            c == reader.contents(),
            h == headers.header,
            count == h.shnum,
            endian == h.ident.data,
            class == h.ident.class,
            entry == shdr_size(class),
            stride == shdr_stride(h),
            stride <= 0xffff,
            raw@.len() == index,
            full == reader.reads_fully(),
            full ==> forall|i: int|
                0 <= i < index ==> shdr_offset(h, i) + shdr_size(class) <= u64::MAX && in_range(
                    c,
                    #[trigger] shdr_offset(h, i),
                    shdr_size(class),
                ) && raw@[i] == SectionHeader::from_bytes(c, shdr_offset(h, i), endian, class),
        decreases count - index,
    {
        assert(index * stride <= 0xffff * 0xffff) by (nonlinear_arith)
            requires
                index < 0x10000,
                stride <= 0xffff,
        ;
        let offset = headers.header.shoff.saturating_add(index * stride);
        assert(offset == shdr_offset(h, index as int));
        if offset > u64::MAX - entry {
            proof {
                if full {
                    assert(!shdr_table_ok(c, h));
                }
            }
            return Err(Error::generic("section header table offset overflows"));
        }
        let sh = match SectionHeader::parse(reader, offset, endian, class) {
            Ok(sh) => sh,
            Err(e) => {
                proof {
                    if reader.reads_fully() {
                        assert(!in_range(c, shdr_offset(h, index as int), shdr_size(class)));
                        assert(!shdr_table_ok(c, h));
                    }
                }
                return Err(e);
            },
        };
        raw.push(sh);
        index = index + 1;
    }
    assert(full ==> raw@ =~= shdr_table(c, h));
    Ok(raw)
}

/// Reads exactly `len` bytes at `offset` into a fresh vector.
fn read_exact_vec<R: ReadAt>(reader: &R, offset: u64, len: usize) -> (res: Result<Vec<u8>>)
    ensures
        reader.reads_fully() ==> (res is Ok <==> in_range(reader.contents(), offset as int, len as int)),
        reader.reads_fully() ==> (res matches Ok(v) ==> v@ == window(
            reader.contents(),
            offset as int,
            len as int,
        )),
{
    let mut buf: Vec<u8> = vec![0u8; len];
    reader.read_exact_at(offset, buf.as_mut_slice())?;
    Ok(buf)
}

/// Resolves the name of each section in `raw` through the section-name
/// string table; no names at all when that table cannot be read.
fn section_names<R: ReadAt>(
    reader: &R,
    headers: &ElfHeaders,
    raw: &Vec<SectionHeader>,
    size: Option<u64>,
) -> (res: Vec<String>)
    requires
        reader.reads_fully() ==> (size matches Some(s) ==> s == reader.contents().len()),
    ensures
        res@.len() == 0 || res@.len() == raw@.len(),
        reader.reads_fully() && res@.len() == raw@.len() && raw@.len() > 0 ==> shstrtab_ok(
            reader.contents(),
            headers.header,
            raw@,
        ) && forall|i: int|
            0 <= i < raw@.len() ==> #[trigger] res@[i]@ == string_or_empty(
                shstrtab_bytes(reader.contents(), headers.header, raw@),
                raw@[i].name_index as int,
            ),
        reader.reads_fully() && shstrtab_ok(reader.contents(), headers.header, raw@) ==> res@.len()
            == raw@.len(),
{
    let ghost c = reader.contents();
    let index = headers.header.shstrndx as usize;
    if index >= raw.len() || raw[index].kind.0 != SectionType::STRTAB {
        return Vec::new();
    }
    let len = match checked_len(raw[index].size, size) {
        Ok(n) => n,
        Err(_) => return Vec::new(),
    };
    let data = match read_exact_vec(reader, raw[index].offset, len) {
        Ok(d) => d,
        Err(_) => return Vec::new(),
    };
    let table = StringTable::new(data.as_slice());
    let mut names: Vec<String> = Vec::new();
    let mut i: usize = 0;
    while i < raw.len()
        invariant
            i <= raw@.len(),
            names@.len() == i,
            reader.reads_fully() ==> table.bytes_spec() == shstrtab_bytes(c, headers.header, raw@),
            forall|j: int|
                0 <= j < i ==> #[trigger] names@[j]@ == string_or_empty(
                    table.bytes_spec(),
                    raw@[j].name_index as int,
                ),
        decreases raw@.len() - i,
    {
        let name = match table.get(raw[i].name_index as usize) {
            Some(s) => s.to_owned(),
            None => String::new(),
        };
        names.push(name);
        i = i + 1;
    }
    names
}

/// Reads the sections of a file-layout object.
fn read_file_sections<R: ReadAt>(reader: &R, headers: &ElfHeaders, size: Option<u64>) -> (res:
    Result<Vec<Section>>)
    requires
        reader.reads_fully() ==> headers_of(reader.contents()) == Some(headers@),
        reader.reads_fully() ==> (size matches Some(s) ==> s == reader.contents().len()),
    ensures
        reader.reads_fully() ==> (res is Ok <==> file_sections_ok(reader.contents(), headers.header)),
        reader.reads_fully() ==> (res matches Ok(secs) ==> file_sections_shape(
            reader.contents(),
            headers.header,
            secs@,
        ) && file_sections_named(reader.contents(), headers.header, secs@)),
{
    let ghost c = reader.contents();
    let ghost full = reader.reads_fully();
    let ghost h = headers.header;
    if headers.header.shoff == 0 || headers.header.shnum == 0 {
        return Ok(Vec::new());
    }
    let raw = match read_section_headers(reader, headers) {
        Ok(r) => r,
        Err(e) => {
            return Err(e);
        },
    };
    let names = section_names(reader, headers, &raw, size);
    let named = names.len() == raw.len();
    let mut sections: Vec<Section> = Vec::new();
    let mut i: usize = 0;
    while i < raw.len()
        invariant
            i <= raw@.len(),
            c == reader.contents(),
            h == headers.header,
            section_table_present(h),
            full == reader.reads_fully(),
            full ==> raw@ == shdr_table(c, h),
            full ==> (size matches Some(s) ==> s == c.len()),
            named == (names@.len() == raw@.len()),
            full && shstrtab_ok(c, h, raw@) ==> named,
            full && named && raw@.len() > 0 ==> shstrtab_ok(c, h, raw@) && forall|j: int|
                0 <= j < raw@.len() ==> #[trigger] names@[j]@ == string_or_empty(
                    shstrtab_bytes(c, h, raw@),
                    raw@[j].name_index as int,
                ),
            sections@.len() == i,
            forall|j: int| 0 <= j < i ==> #[trigger] sections@[j].header == raw@[j],
            full ==> forall|j: int|
                0 <= j < i ==> #[trigger] sections@[j].data@ == file_section_bytes(c, raw@[j]),
            full ==> forall|j: int| 0 <= j < i ==> file_section_ok(c, #[trigger] raw@[j]),
            full ==> forall|j: int|
                0 <= j < i ==> #[trigger] sections@[j].name@ == if named {
                    file_section_name(c, h, raw@, j)
                } else {
                    Seq::<char>::empty()
                },
        decreases raw@.len() - i,
    {
        let header = raw[i];
        let data = if header.is_nobits() || header.size == 0 {
            Vec::new()
        } else {
            let len = match checked_len(header.size, size) {
                Ok(n) => n,
                Err(e) => {
                    proof {
                        if reader.reads_fully() {
                            assert(!file_section_ok(c, shdr_table(c, h)[i as int]));
                        }
                    }
                    return Err(e);
                },
            };
            match read_exact_vec(reader, header.offset, len) {
                Ok(d) => d,
                Err(e) => {
                    proof {
                        if reader.reads_fully() {
                            assert(!file_section_ok(c, shdr_table(c, h)[i as int]));
                        }
                    }
                    return Err(e);
                },
            }
        };
        assert(full ==> data@ == file_section_bytes(c, header));
        assert(full ==> file_section_ok(c, header));
        let name = if named {
            names[i].clone()
        } else {
            String::new()
        };
        sections.push(Section { header, name, data });
        i = i + 1;
    }
    proof {
        if full {
            assert forall|j: int| 0 <= j < h.shnum implies file_section_ok(
                c,
                #[trigger] shdr_table(c, h)[j],
            ) by {
                assert(sections@[j].header == raw@[j]);
            }
        }
    }
    Ok(sections)
}

/// Laying a source over zero bytes gives the zero-extended source bytes.
proof fn lemma_overlay_zeros(c: Seq<u8>, off: int, n: nat)
    ensures
        overlay(c, off, Seq::new(n, |j: int| 0u8)) == zero_extended(c, off, n as int),
{
    assert(overlay(c, off, Seq::new(n, |j: int| 0u8)) =~= zero_extended(c, off, n as int));
}

/// A mapped layout that fits one length limit fits every larger one.
pub proof fn lemma_mapped_layout_ok_mono(c: Seq<u8>, a: u64, b: u64)
    requires
        a <= b,
        mapped_layout_ok(c, a),
    ensures
        mapped_layout_ok(c, b),
{
    if let Some((_, _, hs)) = headers_of(c) {
        assert forall|i: int| 0 <= i < hs.len() implies mapped_segment_ok(b, #[trigger] hs[i]) by {
            assert(mapped_segment_ok(a, hs[i]));
        }
    }
}

/// A segment whose file bytes cannot be read spoils the file layout.
proof fn lemma_file_bad_segment(c: Seq<u8>, hs: Seq<ProgramHeader>, i: int)
    requires
        headers_of(c) matches Some((_, _, t)) && t == hs,
        0 <= i < hs.len(),
        !file_segment_ok(c, hs[i]),
    ensures
        !file_layout_ok(c),
{
}

/// A segment that exceeds the length limit spoils the mapped layout.
proof fn lemma_mapped_bad_segment(c: Seq<u8>, cap: u64, hs: Seq<ProgramHeader>, i: int)
    requires
        headers_of(c) matches Some((_, _, t)) && t == hs,
        0 <= i < hs.len(),
        !mapped_segment_ok(cap, hs[i]),
    ensures
        !mapped_layout_ok(c, cap),
{
}

/// Reads `length` bytes at `start` into a fresh zero-filled vector, leaving
/// zeros where the source ends.
fn read_zero_filled<R: ReadAt>(reader: &R, start: u64, length: u64, size: Option<u64>) -> (res:
    Result<Vec<u8>>)
    ensures
        res is Ok <==> length <= alloc_cap(size),
        res matches Ok(v) ==> v@.len() == length,
        res matches Ok(v) ==> (reader.reads_fully() ==> v@ == zero_extended(
            reader.contents(),
            start as int,
            length as int,
        )),
{
    let mut data = checked_alloc(length, size)?;
    let ghost zeros = data@;
    read_lenient(reader, start, &mut data);
    proof {
        lemma_overlay_zeros(reader.contents(), start as int, length as nat);
    }
    Ok(data)
}

/// The views of a list of sections.
pub open spec fn section_views(secs: Seq<Section>) -> Seq<(SectionHeader, Seq<char>, Seq<u8>)> {
    secs.map_values(|s: Section| s@)
}

/// Reads one section of a loader-mapped image; `None` when its length
/// exceeds the limit.
fn read_mapped_section<R: ReadAt>(
    reader: &R,
    header: SectionHeader,
    image_base: u64,
    size: Option<u64>,
    names: &StringTable,
) -> (res: Option<Section>)
    ensures
        res is None <==> mapped_section_length(header) > alloc_cap(size),
        res matches Some(s) ==> (reader.reads_fully() ==> s@ == (
            header,
            string_or_empty(names.bytes_spec(), header.name_index as int),
            zero_extended(
                reader.contents(),
                mapped_start(header, image_base),
                mapped_section_length(header) as int,
            ),
        )),
{
    let length = if header.is_nobits() {
        0
    } else {
        header.size
    };
    let start = if header.flags.is_alloc() {
        header.addr.saturating_sub(image_base)
    } else {
        header.offset
    };
    let data = match read_zero_filled(reader, start, length, size) {
        Ok(d) => d,
        Err(_) => {
            return None;
        },
    };
    let name = match names.get(header.name_index as usize) {
        Some(s) => s.to_owned(),
        None => String::new(),
    };
    Some(Section { header, name, data })
}

/// Reads the sections of a loader-mapped image; a section that cannot be
/// allocated is left out, and no sections come back when the section header
/// table cannot be read.
#[verifier::spinoff_prover]
#[verifier::rlimit(40)]
fn read_mapped_sections<R: ReadAt>(
    reader: &R,
    headers: &ElfHeaders,
    image_base: u64,
    size: Option<u64>,
) -> (res: Vec<Section>)
    requires
        reader.reads_fully() ==> headers_of(reader.contents()) == Some(headers@),
    ensures
        reader.reads_fully() ==> section_views(res@) == mapped_sections_spec(
            reader.contents(),
            alloc_cap(size),
            image_base,
            headers.header,
        ),
{
    let ghost c = reader.contents();
    let ghost h = headers.header;
    let ghost cap = alloc_cap(size);
    let raw = match read_section_headers(reader, headers) {
        Ok(r) => r,
        Err(_) => {
            assert(section_views(Seq::<Section>::empty()) =~= Seq::empty());
            return Vec::new();
        },
    };
    let index = headers.header.shstrndx as usize;
    let strtab: Vec<u8> = if index < raw.len() && raw[index].kind.0 == SectionType::STRTAB {
        let s = raw[index];
        let start = if s.flags.is_alloc() {
            s.addr.saturating_sub(image_base)
        } else {
            s.offset
        };
        match read_zero_filled(reader, start, s.size, size) {
            Ok(d) => d,
            Err(_) => Vec::new(),
        }
    } else {
        Vec::new()
    };
    let ghost tab = mapped_strtab(c, cap, image_base, h, raw@);
    assert(reader.reads_fully() ==> strtab@ == tab);
    let names = StringTable::new(strtab.as_slice());
    let mut sections: Vec<Section> = Vec::new();
    let mut i: usize = 0;
    assert(section_views(sections@) =~= Seq::empty());
    while i < raw.len()
        invariant
            i <= raw@.len(),
            c == reader.contents(),
            cap == alloc_cap(size),
            reader.reads_fully() ==> names.bytes_spec() == tab,
            reader.reads_fully() ==> section_views(sections@) == mapped_sections_from(
                c,
                cap,
                image_base,
                raw@.take(i as int),
                tab,
            ),
        decreases raw@.len() - i,
    {
        proof {
            assert(raw@.take(i + 1).drop_last() =~= raw@.take(i as int));
        }
        match read_mapped_section(reader, raw[i], image_base, size, &names) {
            Some(section) => {
                let ghost before = sections@;
                sections.push(section);
                proof {
                    assert(section_views(sections@) =~= section_views(before).push(section@));
                }
            },
            None => {},
        }
        i = i + 1;
    }
    proof {
        assert(raw@.take(raw@.len() as int) =~= raw@);
    }
    sections
}

impl ElfImage {
    /// Parses bytes in ELF file layout.
    ///
    /// Fails when a structure or its data cannot be read.
    pub fn parse(data: &[u8]) -> (res: Result<Self>)
        ensures
            res is Ok <==> file_layout_ok(data@),
            res matches Ok(img) ==> file_image_matches(data@, img) && img.runtime_base_spec()
                == image_geometry(&img).base,
    {
        let reader = SliceReader::new(data);
        assert(shifted(data@, 0) =~= data@);
        Self::read_from(&reader, 0, Layout::File)
    }

    /// Parses bytes from a loader-mapped image at its preferred base.
    ///
    /// Fails exactly when the headers cannot be read or a segment claims
    /// more bytes than the source or the allocation limit allow.
    pub fn parse_mapped(data: &[u8]) -> (res: Result<Self>)
        ensures
            res is Ok <==> mapped_layout_ok(data@, alloc_cap(Some(data@.len() as u64))),
            res matches Ok(img) ==> mapped_image_matches(
                data@,
                alloc_cap(Some(data@.len() as u64)),
                img,
            ) && img.runtime_base_spec() == image_geometry(&img).base,
    {
        let reader = SliceReader::new(data);
        let mut image = Self::read_mapped_layout(&reader, Some(data.len() as u64))?;
        image.runtime_base = image.image_base();
        Ok(image)
    }

    /// Parses bytes from a loader-mapped image placed at `load_base`.
    pub fn parse_mapped_at(data: &[u8], load_base: u64) -> (res: Result<Self>)
        ensures
            res is Ok <==> mapped_layout_ok(data@, alloc_cap(Some(data@.len() as u64))),
            res matches Ok(img) ==> mapped_image_matches(
                data@,
                alloc_cap(Some(data@.len() as u64)),
                img,
            ) && img.runtime_base_spec() == load_base,
    {
        let reader = SliceReader::new(data);
        let mut image = Self::read_mapped_layout(&reader, Some(data.len() as u64))?;
        image.runtime_base = load_base;
        Ok(image)
    }

    /// Reads an image from a positional source in the given layout.
    ///
    /// `base_offset` addresses the ELF header inside the source. Use it to
    /// parse an image embedded at a known offset.
    pub fn read_from<R: ReadAt>(reader: &R, base_offset: u64, layout: Layout) -> (res: Result<
        Self,
    >)
        ensures
            res matches Ok(img) ==> img.runtime_base_spec() == image_geometry(&img).base,
            reader.reads_fully() ==> ({
                let sc = shifted(reader.contents(), base_offset);
                match layout {
                    Layout::File => {
                        &&& res is Ok <==> file_layout_ok(sc)
                        &&& res matches Ok(img) ==> file_image_matches(sc, img)
                    },
                    Layout::Mapped => {
                        &&& res matches Ok(img) ==> mapped_layout_ok(sc, MAX_ALLOC) && (
                        mapped_image_matches(sc, MAX_ALLOC, img) || mapped_image_matches(
                            sc,
                            alloc_cap(Some(sc.len() as u64)),
                            img,
                        ))
                        &&& mapped_layout_ok(sc, alloc_cap(Some(sc.len() as u64))) ==> res is Ok
                    },
                }
            }),
    {
        let shifted_reader = OffsetReader { inner: reader, base: base_offset };
        let size = shifted_reader.size();
        let mut image = match layout {
            Layout::File => Self::read_file_layout(&shifted_reader, size)?,
            Layout::Mapped => Self::read_mapped_layout(&shifted_reader, size)?,
        };
        image.runtime_base = image.image_base();
        proof {
            let sc = shifted(reader.contents(), base_offset);
            if layout == Layout::Mapped && reader.reads_fully() {
                lemma_mapped_layout_ok_mono(sc, alloc_cap(size), MAX_ALLOC);
            }
        }
        Ok(image)
    }

    /// Reads a loader-mapped image from a positional memory source.
    ///
    /// `source_address` addresses the ELF header in the source. `load_base` is
    /// the virtual address where the loader placed the image. Missing mapped
    /// pages read as zero-filled bytes, so a partially resident image still
    /// parses.
    pub fn read_mapped_from<R: ReadAt>(reader: &R, source_address: u64, load_base: u64) -> (res:
        Result<Self>)
        ensures
            res matches Ok(img) ==> img.runtime_base_spec() == load_base,
            reader.reads_fully() ==> ({
                let sc = shifted(reader.contents(), source_address);
                &&& res matches Ok(img) ==> mapped_layout_ok(sc, MAX_ALLOC) && (mapped_image_matches(
                    sc,
                    MAX_ALLOC,
                    img,
                ) || mapped_image_matches(sc, alloc_cap(Some(sc.len() as u64)), img))
                &&& mapped_layout_ok(sc, alloc_cap(Some(sc.len() as u64))) ==> res is Ok
            }),
    {
        let shifted_reader = OffsetReader { inner: reader, base: source_address };
        let size = shifted_reader.size();
        let mut image = Self::read_mapped_layout(&shifted_reader, size)?;
        image.runtime_base = load_base;
        proof {
            if reader.reads_fully() {
                lemma_mapped_layout_ok_mono(
                    shifted(reader.contents(), source_address),
                    alloc_cap(size),
                    MAX_ALLOC,
                );
            }
        }
        Ok(image)
    }

    #[verifier::spinoff_prover]
    #[verifier::rlimit(40)]
    fn read_file_layout<R: ReadAt>(reader: &R, size: Option<u64>) -> (res: Result<Self>)
        requires
            reader.reads_fully() ==> (size matches Some(s) ==> s == reader.contents().len()),
        ensures
            reader.reads_fully() ==> (res is Ok <==> file_layout_ok(reader.contents())),
            reader.reads_fully() ==> (res matches Ok(img) ==> file_image_matches(
                reader.contents(),
                img,
            )),
    {
        let ghost c = reader.contents();
        let ghost full = reader.reads_fully();
        let headers = ElfHeaders::read_from(reader)?;
        let ghost hs = headers.program_headers@;
        let mut segments: Vec<Segment> = Vec::new();
        let mut i: usize = 0;
        while i < headers.program_headers.len()
            invariant
                i <= hs.len(),
                hs == headers.program_headers@,
                c == reader.contents(),
                full == reader.reads_fully(),
                full ==> headers_of(c) == Some(headers@),
                full ==> (size matches Some(s) ==> s == c.len()),
                segments@.len() == i,
                forall|j: int| 0 <= j < i ==> #[trigger] segments@[j].header == hs[j],
                full ==> forall|j: int|
                    0 <= j < i ==> #[trigger] segments@[j].data@ == file_segment_bytes(c, hs[j]),
                full ==> forall|j: int| 0 <= j < i ==> file_segment_ok(c, #[trigger] hs[j]),
            decreases hs.len() - i,
        {
            let header = headers.program_headers[i];
            let data = if header.kind.0 == SegmentType::NULL || header.filesz == 0 {
                Vec::new()
            } else {
                let len = match checked_len(header.filesz, size) {
                    Ok(n) => n,
                    Err(e) => {
                        proof {
                            if full {
                                lemma_file_bad_segment(c, hs, i as int);
                            }
                        }
                        return Err(e);
                    },
                };
                match read_exact_vec(reader, header.offset, len) {
                    Ok(d) => d,
                    Err(e) => {
                        proof {
                            if reader.reads_fully() {
                                lemma_file_bad_segment(c, hs, i as int);
                            }
                        }
                        return Err(e);
                    },
                }
            };
            assert(full ==> data@ == file_segment_bytes(c, header));
            segments.push(Segment { header, data });
            i = i + 1;
        }
        let sections = match read_file_sections(reader, &headers, size) {
            Ok(v) => v,
            Err(e) => {
                return Err(e);
            },
        };
        Ok(ElfImage {
            ident: headers.ident,
            header: headers.header,
            segments,
            sections,
            runtime_base: 0,
        })
    }

    #[verifier::spinoff_prover]
    #[verifier::rlimit(40)]
    fn read_mapped_layout<R: ReadAt>(reader: &R, size: Option<u64>) -> (res: Result<Self>)
        requires
            reader.reads_fully() ==> (size matches Some(s) ==> s == reader.contents().len()),
        ensures
            reader.reads_fully() ==> (res is Ok <==> mapped_layout_ok(
                reader.contents(),
                alloc_cap(size),
            )),
            reader.reads_fully() ==> (res matches Ok(img) ==> mapped_image_matches(
                reader.contents(),
                alloc_cap(size),
                img,
            )),
    {
        let ghost c = reader.contents();
        let ghost full = reader.reads_fully();
        let ghost cap = alloc_cap(size);
        let headers = ElfHeaders::read_from(reader)?;
        let ghost hs = headers.program_headers@;
        let image_base = compute_image_base(&headers.program_headers);
        let mut segments: Vec<Segment> = Vec::new();
        let mut i: usize = 0;
        while i < headers.program_headers.len()
            invariant
                i <= hs.len(),
                hs == headers.program_headers@,
                c == reader.contents(),
                cap == alloc_cap(size),
                full == reader.reads_fully(),
                full ==> headers_of(c) == Some(headers@),
                image_base == header_image_base(hs),
                segments@.len() == i,
                forall|j: int| 0 <= j < i ==> #[trigger] segments@[j].header == hs[j],
                forall|j: int|
                    0 <= j < i ==> (reader.reads_fully() ==> #[trigger] segments@[j].data@
                        == mapped_segment_bytes(c, image_base, hs[j])),
                forall|j: int| 0 <= j < i ==> mapped_segment_ok(cap, #[trigger] hs[j]),
            decreases hs.len() - i,
        {
            let header = headers.program_headers[i];
            let length = if header.kind.0 == SegmentType::LOAD {
                header.memsz
            } else {
                header.filesz
            };
            let data = if header.kind.0 == SegmentType::NULL || length == 0 {
                Vec::new()
            } else {
                let start = header.vaddr.saturating_sub(image_base);
                match read_zero_filled(reader, start, length, size) {
                    Ok(d) => d,
                    Err(e) => {
                        proof {
                            assert(!mapped_segment_ok(cap, hs[i as int]));
                            if full {
                                lemma_mapped_bad_segment(c, cap, hs, i as int);
                            }
                        }
                        return Err(e);
                    },
                }
            };
            segments.push(Segment { header, data });
            i = i + 1;
        }
        let sections = read_mapped_sections(reader, &headers, image_base, size);
        Ok(ElfImage {
            ident: headers.ident,
            header: headers.header,
            segments,
            sections,
            runtime_base: 0,
        })
    }
}

/// A reader that shifts every offset by a fixed base.
struct OffsetReader<'a, R: ReadAt> {
    inner: &'a R,
    base: u64,
}

impl<'a, R: ReadAt> ReadAt for OffsetReader<'a, R> {
    closed spec fn contents(&self) -> Seq<u8> {
        shifted(self.inner.contents(), self.base)
    }

    closed spec fn reads_fully(&self) -> bool {
        self.inner.reads_fully()
    }


    fn read_at(&self, offset: u64, buf: &mut [u8]) -> (res: Result<usize>) {
        let ghost c = self.inner.contents();
        let shifted_offset = match self.base.checked_add(offset) {
            Some(s) => s,
            None => {
                assert(buf@.subrange(0, 0) =~= window(self.contents(), offset as int, 0));
                // An empty read at the last offset tells how far the source
                // reaches; its outcome does not change the answer.
                let mut empty: [u8; 0] = [];
                let _ = self.inner.read_at(u64::MAX, &mut empty);
                return Ok(0);
            },
        };
        let res = self.inner.read_at(shifted_offset, buf);
        proof {
            if self.reads_fully() {
                if let Ok(n) = res {
                    assert(window(c, shifted_offset as int, n as int) =~= window(
                        self.contents(),
                        offset as int,
                        n as int,
                    ));
                }
            }
        }
        res
    }

    fn size(&self) -> (res: Option<u64>) {
        match self.inner.size() {
            Some(s) => Some(s.saturating_sub(self.base)),
            None => None,
        }
    }
}

} // verus!

//! The file layout parses back: the headers, program headers, section
//! headers, and bytes that [`ElfImage::try_build`] writes are the ones that
//! [`ElfImage::parse`] reads.

use vstd::prelude::*;

use crate::ident::ElfClass;
use crate::program::{ProgramHeader, SegmentType};
use crate::reader::window;
use crate::section::SectionHeader;

use crate::ident::Endian;
use crate::program::phdr_size;
use crate::section::shdr_size;

use super::serialize::{
    congruent_spec, lemma_phdr_bytes_len, lemma_phdr_table_len, lemma_shdr_bytes_len,
    lemma_shdr_table_len, phdr_table_bytes, place_sections, place_segments, sec_alignment,
    seg_alignment, seg_writable, shdr_table_bytes, written, SectionCursor, SectionView,
    SegmentCursor, SegmentView, MAX_IMAGE,
};
use super::parse::{
    file_layout_ok, file_section_bytes, file_section_ok, file_segment_bytes, file_segment_ok,
    section_table_present, shdr_offset, shdr_stride, shdr_table, shdr_table_ok,
};
use super::parse::{file_image_matches, section_views};
use super::serialize::{
    file_bytes_of, file_bytes_spec, layout_header, layout_sections, sat_int, segment_views,
};
use super::ElfImage;
use super::{align_up_spec, first_match, image_geometry, lemma_align_up, load_records_spec};
use crate::program::Segment;
use crate::header::{ehdr_size, headers_of, phdr_offset, phdr_table, phdr_table_ok, ElfHeader};
use crate::ident::{ident_of_bytes, ElfIdent};
use crate::reader::in_range;

verus! {

/// A write leaves alone every window that ends before it.
pub proof fn lemma_written_keeps(out: Seq<u8>, at: int, d: Seq<u8>, o: int, w: int)
    requires
        0 <= o,
        0 <= w,
        o + w <= at,
        o + w <= out.len(),
    ensures
        window(written(out, at, d), o, w) == window(out, o, w),
{
    assert(window(written(out, at, d), o, w) =~= window(out, o, w));
}

/// A write leaves its bytes in place, and the result reaches at least its
/// end.
pub proof fn lemma_written_window(out: Seq<u8>, at: int, d: Seq<u8>)
    requires
        0 <= at,
    ensures
        written(out, at, d).len() >= at + d.len(),
        written(out, at, d).len() >= out.len(),
        window(written(out, at, d), at, d.len() as int) == d,
{
    assert(window(written(out, at, d), at, d.len() as int) =~= d);
}

/// A write leaves alone every window that starts after it.
pub proof fn lemma_written_keeps_after(out: Seq<u8>, at: int, d: Seq<u8>, o: int, w: int)
    requires
        0 <= at,
        0 <= w,
        at + d.len() <= o,
        o + w <= out.len(),
    ensures
        window(written(out, at, d), o, w) == window(out, o, w),
{
    assert(window(written(out, at, d), o, w) =~= window(out, o, w));
}

/// Entry `i` of a serialized program header table is the serialized header
/// `i`.
pub proof fn lemma_phdr_table_index(ph: Seq<ProgramHeader>, e: Endian, class: ElfClass, i: int)
    requires
        0 <= i < ph.len(),
    ensures
        phdr_table_bytes(ph, e, class).len() == ph.len() * phdr_size(class),
        window(phdr_table_bytes(ph, e, class), i * phdr_size(class), phdr_size(class))
            == ph[i].bytes_spec(e, class),
    decreases ph.len(),
{
    let n = phdr_size(class);
    lemma_phdr_table_len(ph, e, class);
    let prev = ph.drop_last();
    lemma_phdr_table_len(prev, e, class);
    lemma_phdr_bytes_len(ph.last(), e, class);
    let t = phdr_table_bytes(ph, e, class);
    let pt = phdr_table_bytes(prev, e, class);
    assert(t == pt + ph.last().bytes_spec(e, class));
    if i < prev.len() {
        lemma_phdr_table_index(prev, e, class, i);
        assert(i * n + n <= prev.len() * n) by (nonlinear_arith)
            requires
                i < prev.len(),
                n >= 0,
        ;
        assert(window(t, i * n, n) =~= window(pt, i * n, n));
    } else {
        assert(i == prev.len());
        assert(window(t, i * n, n) =~= ph.last().bytes_spec(e, class));
    }
}

/// Entry `i` of a serialized section header table is the serialized header
/// `i`.
pub proof fn lemma_shdr_table_index(hs: Seq<SectionHeader>, e: Endian, class: ElfClass, i: int)
    requires
        0 <= i < hs.len(),
    ensures
        shdr_table_bytes(hs, e, class).len() == hs.len() * shdr_size(class),
        window(shdr_table_bytes(hs, e, class), i * shdr_size(class), shdr_size(class))
            == hs[i].bytes_spec(e, class),
    decreases hs.len(),
{
    let n = shdr_size(class);
    lemma_shdr_table_len(hs, e, class);
    let prev = hs.drop_last();
    lemma_shdr_table_len(prev, e, class);
    lemma_shdr_bytes_len(hs.last(), e, class);
    let t = shdr_table_bytes(hs, e, class);
    let pt = shdr_table_bytes(prev, e, class);
    assert(t == pt + hs.last().bytes_spec(e, class));
    if i < prev.len() {
        lemma_shdr_table_index(prev, e, class, i);
        assert(i * n + n <= prev.len() * n) by (nonlinear_arith)
            requires
                i < prev.len(),
                n >= 0,
        ;
        assert(window(t, i * n, n) =~= window(pt, i * n, n));
    } else {
        assert(i == prev.len());
        assert(window(t, i * n, n) =~= hs.last().bytes_spec(e, class));
    }
}

/// The first offset at or after a cursor congruent to an address is no
/// smaller than the cursor.
pub proof fn lemma_congruent_grows(cursor: u64, vaddr: u64, alignment: u64)
    ensures
        congruent_spec(cursor, vaddr, alignment) >= cursor,
{
}

/// Whether `p` is `h` with a new file range.
pub open spec fn same_but_range(p: ProgramHeader, h: ProgramHeader) -> bool {
    p == ProgramHeader { offset: p.offset, filesz: p.filesz, ..h }
}

/// What placing segments from cursor `c0` over bytes `out0` gives: the
/// cursor only grows and stays past the bytes, the bytes below `c0` stay,
/// and each placed segment's stored bytes stand at its new file offset.
pub open spec fn segments_placed(
    segs: Seq<SegmentView>,
    c0: u64,
    out0: Seq<u8>,
    r: SegmentCursor,
) -> bool {
    let (cur, out, ph) = r;
    &&& c0 <= cur
    &&& out.len() <= cur
    &&& out.len() <= MAX_IMAGE
    &&& out.len() >= out0.len()
    &&& forall|j: int| 0 <= j < out0.len() ==> #[trigger] out[j] == out0[j]
    &&& forall|j: int| out0.len() <= j < out.len() && j < c0 ==> #[trigger] out[j] == 0u8
    &&& ph.len() == segs.len()
    &&& forall|i: int|
        0 <= i < segs.len() ==> {
            let w = seg_writable(#[trigger] segs[i]);
            &&& same_but_range(ph[i], segs[i].0)
            &&& ph[i].filesz == w
            &&& w == 0 ==> ph[i].offset == 0
            &&& w > 0 ==> c0 <= ph[i].offset && ph[i].offset + w <= out.len() && window(
                out,
                ph[i].offset as int,
                w,
            ) == segs[i].1.take(w)
        }
}

/// Placing segments gives what [`segments_placed`] says.
pub proof fn lemma_place_segments(segs: Seq<SegmentView>, c0: u64, out0: Seq<u8>)
    requires
        out0.len() <= c0,
        out0.len() <= MAX_IMAGE,
        place_segments(segs, (c0, out0, Seq::empty())) is Some,
    ensures
        segments_placed(segs, c0, out0, place_segments(segs, (c0, out0, Seq::empty()))->0),
    decreases segs.len(),
{
    if segs.len() > 0 {
        let prev = segs.drop_last();
        lemma_place_segments(prev, c0, out0);
        let (cur, out, ph) = place_segments(prev, (c0, out0, Seq::empty()))->0;
        let s = segs.last();
        let w = seg_writable(s);
        let r = place_segments(segs, (c0, out0, Seq::empty()))->0;
        if w == 0 {
            assert forall|i: int| 0 <= i < segs.len() implies {
                let wi = seg_writable(#[trigger] segs[i]);
                &&& same_but_range(r.2[i], segs[i].0)
                &&& r.2[i].filesz == wi
                &&& wi == 0 ==> r.2[i].offset == 0
                &&& wi > 0 ==> c0 <= r.2[i].offset && r.2[i].offset + wi <= r.1.len() && window(
                    r.1,
                    r.2[i].offset as int,
                    wi,
                ) == segs[i].1.take(wi)
            } by {
                if i < prev.len() {
                    assert(segs[i] == prev[i]);
                }
            }
        } else {
            let at = congruent_spec(cur, s.0.vaddr, seg_alignment(s.0));
            lemma_congruent_grows(cur, s.0.vaddr, seg_alignment(s.0));
            let d = s.1.take(w);
            lemma_written_window(out, at as int, d);
            assert forall|i: int| 0 <= i < segs.len() implies {
                let wi = seg_writable(#[trigger] segs[i]);
                &&& same_but_range(r.2[i], segs[i].0)
                &&& r.2[i].filesz == wi
                &&& wi == 0 ==> r.2[i].offset == 0
                &&& wi > 0 ==> c0 <= r.2[i].offset && r.2[i].offset + wi <= r.1.len() && window(
                    r.1,
                    r.2[i].offset as int,
                    wi,
                ) == segs[i].1.take(wi)
            } by {
                if i < prev.len() {
                    assert(segs[i] == prev[i]);
                    let wi = seg_writable(segs[i]);
                    if wi > 0 {
                        lemma_written_keeps(out, at as int, d, ph[i].offset as int, wi);
                    }
                }
            }
        }
    }
}

/// What placing sections from cursor `c0` over bytes `out0` gives: the
/// cursor only grows and stays past the bytes, the bytes below `c0` stay,
/// and each section with bytes has them at its new file offset.
pub open spec fn sections_placed(
    v: Seq<SectionView>,
    c0: u64,
    out0: Seq<u8>,
    r: SectionCursor,
) -> bool {
    let (cur, out, hs) = r;
    &&& c0 <= cur
    &&& out.len() <= cur
    &&& out.len() <= MAX_IMAGE
    &&& out.len() >= out0.len()
    &&& forall|j: int| 0 <= j < out0.len() ==> #[trigger] out[j] == out0[j]
    &&& hs.len() == v.len()
    &&& forall|i: int|
        0 <= i < v.len() ==> {
            let s = #[trigger] v[i];
            &&& s.0.nobits_spec() ==> hs[i] == s.0
            &&& !s.0.nobits_spec() && s.2.len() == 0 ==> hs[i] == SectionHeader { size: 0, ..s.0 }
            &&& !s.0.nobits_spec() && s.2.len() > 0 ==> {
                &&& hs[i] == SectionHeader { offset: hs[i].offset, size: s.2.len() as u64, ..s.0 }
                &&& c0 <= hs[i].offset
                &&& hs[i].offset + s.2.len() <= out.len()
                &&& window(out, hs[i].offset as int, s.2.len() as int) == s.2
            }
        }
}

/// Placing sections gives what [`sections_placed`] says.
pub proof fn lemma_place_sections(v: Seq<SectionView>, c0: u64, out0: Seq<u8>)
    requires
        out0.len() <= c0,
        out0.len() <= MAX_IMAGE,
        place_sections(v, (c0, out0, Seq::empty())) is Some,
    ensures
        sections_placed(v, c0, out0, place_sections(v, (c0, out0, Seq::empty()))->0),
    decreases v.len(),
{
    if v.len() > 0 {
        let prev = v.drop_last();
        lemma_place_sections(prev, c0, out0);
        let (cur, out, hs) = place_sections(prev, (c0, out0, Seq::empty()))->0;
        let s = v.last();
        let r = place_sections(v, (c0, out0, Seq::empty()))->0;
        if s.0.nobits_spec() || s.2.len() == 0 {
            assert forall|i: int| 0 <= i < v.len() implies {
                let t = #[trigger] v[i];
                &&& t.0.nobits_spec() ==> r.2[i] == t.0
                &&& !t.0.nobits_spec() && t.2.len() == 0 ==> r.2[i] == SectionHeader { size: 0, ..t.0 }
                &&& !t.0.nobits_spec() && t.2.len() > 0 ==> {
                    &&& r.2[i] == SectionHeader { offset: r.2[i].offset, size: t.2.len() as u64, ..t.0 }
                    &&& c0 <= r.2[i].offset
                    &&& r.2[i].offset + t.2.len() <= r.1.len()
                    &&& window(r.1, r.2[i].offset as int, t.2.len() as int) == t.2
                }
            } by {
                if i < prev.len() {
                    assert(v[i] == prev[i]);
                }
            }
        } else {
            let at = align_up_spec(cur, sec_alignment(s.0));
            lemma_align_up(cur, sec_alignment(s.0));
            lemma_written_window(out, at as int, s.2);
            assert forall|i: int| 0 <= i < v.len() implies {
                let t = #[trigger] v[i];
                &&& t.0.nobits_spec() ==> r.2[i] == t.0
                &&& !t.0.nobits_spec() && t.2.len() == 0 ==> r.2[i] == SectionHeader { size: 0, ..t.0 }
                &&& !t.0.nobits_spec() && t.2.len() > 0 ==> {
                    &&& r.2[i] == SectionHeader { offset: r.2[i].offset, size: t.2.len() as u64, ..t.0 }
                    &&& c0 <= r.2[i].offset
                    &&& r.2[i].offset + t.2.len() <= r.1.len()
                    &&& window(r.1, r.2[i].offset as int, t.2.len() as int) == t.2
                }
            } by {
                if i < prev.len() {
                    assert(v[i] == prev[i]);
                    let t = v[i];
                    if !t.0.nobits_spec() && t.2.len() > 0 {
                        lemma_written_keeps(out, at as int, s.2, hs[i].offset as int, t.2.len() as int);
                    }
                }
            }
        }
    }
}

/// Whether the fields a file layout keeps from a program header fit the
/// class.
pub open spec fn phdr_fields_fit(h: ProgramHeader, class: ElfClass) -> bool {
    class == ElfClass::Elf64 || (h.vaddr <= u32::MAX && h.paddr <= u32::MAX && h.memsz
        <= u32::MAX && h.align <= u32::MAX)
}

/// Whether the fields a file layout keeps from a section header fit the
/// class.
pub open spec fn shdr_fields_fit(h: SectionHeader, class: ElfClass) -> bool {
    class == ElfClass::Elf64 || (h.flags.0 <= u32::MAX && h.addr <= u32::MAX && h.offset
        <= u32::MAX && h.addralign <= u32::MAX && h.entsize <= u32::MAX && (h.nobits_spec()
        ==> h.size <= u32::MAX))
}

/// Whether an object's headers can be written in file layout and read back
/// unchanged: the header carries the object's identification, its type is
/// canonical, and every field the layout keeps fits the class.
pub open spec fn layout_fits(
    ident: ElfIdent,
    header: ElfHeader,
    segs: Seq<SegmentView>,
    secs: Seq<SectionView>,
) -> bool {
    &&& header.ident == ident
    &&& header.kind.canonical()
    &&& ident.class == ElfClass::Elf64 || header.entry <= u32::MAX
    &&& forall|i: int| 0 <= i < segs.len() ==> phdr_fields_fit(#[trigger] segs[i].0, ident.class)
    &&& forall|i: int| 0 <= i < secs.len() ==> shdr_fields_fit(#[trigger] secs[i].0, ident.class)
}

/// The bytes a file layout stores for a segment, as a parse reads them
/// back: none for a `PT_NULL` segment or one without stored bytes.
pub open spec fn stored_segment_bytes(s: SegmentView) -> Seq<u8> {
    let w = seg_writable(s);
    if s.0.kind.0 == SegmentType::NULL || w == 0 {
        Seq::empty()
    } else {
        s.1.take(w)
    }
}

/// The ELF header a file layout writes keeps every field but the table
/// geometry.
pub open spec fn same_but_tables(h: ElfHeader, g: ElfHeader) -> bool {
    h == ElfHeader {
        phoff: h.phoff,
        shoff: h.shoff,
        ehsize: h.ehsize,
        phentsize: h.phentsize,
        phnum: h.phnum,
        shentsize: h.shentsize,
        shnum: h.shnum,
        shstrndx: h.shstrndx,
        ..g
    }
}

/// A window of a sequence that agrees with another on a prefix is the
/// window of that other, inside the prefix.
pub proof fn lemma_prefix_window(a: Seq<u8>, b: Seq<u8>, o: int, w: int)
    requires
        0 <= o,
        0 <= w,
        o + w <= a.len(),
        a.len() <= b.len(),
        forall|j: int| 0 <= j < a.len() ==> #[trigger] b[j] == a[j],
    ensures
        window(b, o, w) == window(a, o, w),
{
    assert(window(b, o, w) =~= window(a, o, w));
}

/// A window inside a window is a window of the whole.
pub proof fn lemma_subwindow(b: Seq<u8>, o: int, t: Seq<u8>, i: int, m: int)
    requires
        window(b, o, t.len() as int) == t,
        0 <= i,
        0 <= m,
        i + m <= t.len(),
    ensures
        window(b, o + i, m) == window(t, i, m),
{
    assert forall|j: int| 0 <= j < m implies #[trigger] window(b, o + i, m)[j] == window(t, i, m)[j] by {
        assert(window(b, o, t.len() as int)[i + j] == t[i + j]);
    }
    assert(window(b, o + i, m) =~= window(t, i, m));
}

/// The sections a file layout writes keep the fitting fields of the
/// sections it was given, and there are some exactly when there were.
pub proof fn lemma_layout_sections_fit(secs: Seq<SectionView>, class: ElfClass)
    requires
        forall|i: int| 0 <= i < secs.len() ==> shdr_fields_fit(#[trigger] secs[i].0, class),
    ensures
        (layout_sections(secs).0.len() > 0) == (secs.len() > 0),
        forall|j: int|
            0 <= j < layout_sections(secs).0.len() ==> shdr_fields_fit(
                #[trigger] layout_sections(secs).0[j].0,
                class,
            ),
{
    if secs.len() > 0 {
        let (w, k) = super::serialize::with_shstrtab(secs);
        let lv = layout_sections(secs).0;
        assert(lv == super::serialize::named_views(w));
        assert forall|j: int| 0 <= j < lv.len() implies shdr_fields_fit(#[trigger] lv[j].0, class) by {
            if j < secs.len() {
                assert(w[j] == secs[j]);
                assert(shdr_fields_fit(secs[j].0, class));
            }
        }
    }
}

/// A sequence whose first bytes are `p` is `p` followed by the rest.
pub proof fn lemma_split_at(b: Seq<u8>, o: int, p: Seq<u8>)
    requires
        0 <= o,
        o + p.len() <= b.len(),
        window(b, o, p.len() as int) == p,
    ensures
        b == b.take(o) + p + b.skip(o + p.len()),
{
    assert forall|j: int| 0 <= j < b.len() implies #[trigger] b[j] == (b.take(o) + p + b.skip(
        o + p.len(),
    ))[j] by {
        if o <= j < o + p.len() {
            assert(window(b, o, p.len() as int)[j - o] == b[j]);
        }
    }
    assert(b =~= b.take(o) + p + b.skip(o + p.len()));
}

/// The cursor a file layout starts the segment bytes at: just past the
/// ELF header and the program header table.
pub open spec fn lay_start(ident: ElfIdent, segs: Seq<SegmentView>) -> u64 {
    sat_int(ehdr_size(ident.class) + phdr_size(ident.class) * segs.len())
}

/// The bytes a file layout starts from: a zeroed ELF header.
pub open spec fn lay_zeros(ident: ElfIdent) -> Seq<u8> {
    Seq::new(ehdr_size(ident.class) as nat, |j: int| 0u8)
}

/// The state after the file layout places the segment bytes.
pub open spec fn lay_segments(ident: ElfIdent, segs: Seq<SegmentView>) -> SegmentCursor {
    place_segments(segs, (lay_start(ident, segs), lay_zeros(ident), Seq::empty()))->0
}

/// The state after the file layout places the section bytes.
pub open spec fn lay_sections(ident: ElfIdent, segs: Seq<SegmentView>, secs: Seq<SectionView>) -> SectionCursor {
    let r = lay_segments(ident, segs);
    place_sections(layout_sections(secs).0, (r.0, r.1, Seq::empty()))->0
}

/// The file offset of the section header table.
pub open spec fn lay_shoff(ident: ElfIdent, segs: Seq<SegmentView>, secs: Seq<SectionView>) -> u64 {
    if layout_sections(secs).0.len() == 0 {
        0u64
    } else {
        align_up_spec(lay_sections(ident, segs, secs).0, 8)
    }
}

/// The ELF header the file layout writes.
pub open spec fn lay_header(
    ident: ElfIdent,
    header: ElfHeader,
    segs: Seq<SegmentView>,
    secs: Seq<SectionView>,
) -> ElfHeader {
    layout_header(
        header,
        ident.class,
        segs.len() as int,
        layout_sections(secs).0.len() as int,
        layout_sections(secs).1,
        lay_shoff(ident, segs, secs),
    )
}

/// Where the file layout puts everything, as windows of its bytes `b`.
pub open spec fn layout_windows(
    ident: ElfIdent,
    header: ElfHeader,
    segs: Seq<SegmentView>,
    secs: Seq<SectionView>,
    b: Seq<u8>,
) -> bool {
    let class = ident.class;
    let e = ident.data;
    let ehsize = ehdr_size(class);
    let (cur1, out1, ph) = lay_segments(ident, segs);
    let lsecs = layout_sections(secs).0;
    let (cur2, out2, shs) = lay_sections(ident, segs, secs);
    let ptab = phdr_table_bytes(ph, e, class);
    let shoff = lay_shoff(ident, segs, secs);
    let stab = shdr_table_bytes(shs, e, class);
    let h = lay_header(ident, header, segs, secs);
    &&& b.len() <= MAX_IMAGE
    &&& window(b, 0, ehsize) == h.bytes_spec()
    &&& ehsize <= b.len()
    &&& ehsize + ptab.len() <= b.len()
    &&& ptab.len() == ph.len() * phdr_size(class)
    &&& window(b, ehsize, ptab.len() as int) == ptab
    &&& ph.len() == segs.len()
    &&& ph.len() <= u16::MAX
    &&& lsecs.len() <= u16::MAX
    &&& forall|i: int|
        0 <= i < segs.len() ==> {
            let w = seg_writable(#[trigger] segs[i]);
            &&& same_but_range(ph[i], segs[i].0)
            &&& ph[i].filesz == w
            &&& w == 0 ==> ph[i].offset == 0
            &&& w > 0 ==> ph[i].offset + w <= b.len() && window(b, ph[i].offset as int, w)
                == segs[i].1.take(w)
        }
    &&& lsecs.len() > 0 ==> {
        &&& ehsize <= shoff
        &&& shoff + stab.len() <= b.len()
        &&& stab.len() == shs.len() * shdr_size(class)
        &&& window(b, shoff as int, stab.len() as int) == stab
    }
    &&& shs.len() == lsecs.len()
    &&& forall|j: int|
        0 <= j < lsecs.len() ==> {
            let s = #[trigger] lsecs[j];
            &&& s.0.nobits_spec() ==> shs[j] == s.0
            &&& !s.0.nobits_spec() && s.2.len() == 0 ==> shs[j] == SectionHeader { size: 0, ..s.0 }
            &&& !s.0.nobits_spec() && s.2.len() > 0 ==> {
                &&& shs[j] == SectionHeader { offset: shs[j].offset, size: s.2.len() as u64, ..s.0 }
                &&& shs[j].offset + s.2.len() <= b.len()
                &&& window(b, shs[j].offset as int, s.2.len() as int) == s.2
            }
        }
}

/// The file layout puts everything where [`layout_windows`] says.
#[verifier::spinoff_prover]
#[verifier::rlimit(60)]
pub proof fn lemma_layout_windows(
    ident: ElfIdent,
    header: ElfHeader,
    segs: Seq<SegmentView>,
    secs: Seq<SectionView>,
)
    requires
        header.ident == ident,
        file_bytes_of(ident, header, segs, secs) is Some,
    ensures
        layout_windows(ident, header, segs, secs, file_bytes_of(ident, header, segs, secs)->0),
{
    let class = ident.class;
    let e = ident.data;
    let ehsize = ehdr_size(class);
    let n = phdr_size(class);
    let c0 = lay_start(ident, segs);
    let zeros = lay_zeros(ident);
    let (cur1, out1, ph) = lay_segments(ident, segs);
    let (lsecs, k) = layout_sections(secs);
    let (cur2, out2, shs) = lay_sections(ident, segs, secs);
    let ptab = phdr_table_bytes(ph, e, class);
    let shoff = lay_shoff(ident, segs, secs);
    let stab = shdr_table_bytes(shs, e, class);
    let out3 = written(out2, ehsize, ptab);
    let out4 = if lsecs.len() == 0 {
        out3
    } else {
        written(out3, shoff as int, stab)
    };
    let h = lay_header(ident, header, segs, secs);
    let hb = h.bytes_spec();
    let b = written(out4, 0, hb);
    assert(ehsize <= c0);
    assert(place_segments(segs, (c0, zeros, Seq::empty())) is Some);
    lemma_place_segments(segs, c0, zeros);
    assert(place_sections(lsecs, (cur1, out1, Seq::empty())) is Some);
    lemma_place_sections(lsecs, cur1, out1);
    assert(file_bytes_of(ident, header, segs, secs) == Some(b));
    lemma_phdr_table_len(ph, e, class);
    lemma_shdr_table_len(shs, e, class);
    crate::header::lemma_elf_header_len(h);
    assert(c0 == ehsize + ptab.len());
    lemma_align_up(cur2, 8);
    assert(lsecs.len() > 0 ==> cur2 <= shoff);
    lemma_written_window(out2, ehsize, ptab);
    lemma_written_window(out4, 0, hb);
    if lsecs.len() > 0 {
        lemma_written_window(out3, shoff as int, stab);
        lemma_written_keeps(out3, shoff as int, stab, ehsize, ptab.len() as int);
    }
    assert(out3.len() >= ehsize + ptab.len() && out3.len() >= out2.len());
    assert(out4.len() >= out3.len());
    lemma_written_keeps_after(out4, 0, hb, ehsize, ptab.len() as int);
    if lsecs.len() > 0 {
        lemma_written_keeps_after(out4, 0, hb, shoff as int, stab.len() as int);
    }
    assert forall|i: int|
        0 <= i < segs.len() && seg_writable(#[trigger] segs[i]) > 0 implies window(
        b,
        ph[i].offset as int,
        seg_writable(segs[i]),
    ) == segs[i].1.take(seg_writable(segs[i])) by {
        let o = ph[i].offset as int;
        let w = seg_writable(segs[i]);
        lemma_prefix_window(out1, out2, o, w);
        lemma_written_keeps_after(out2, ehsize, ptab, o, w);
        if lsecs.len() > 0 {
            lemma_written_keeps(out3, shoff as int, stab, o, w);
        }
        lemma_written_keeps_after(out4, 0, hb, o, w);
    }
    assert forall|j: int|
        0 <= j < lsecs.len() && !(#[trigger] lsecs[j]).0.nobits_spec() && lsecs[j].2.len()
            > 0 implies window(b, shs[j].offset as int, lsecs[j].2.len() as int) == lsecs[j].2 by {
        let o = shs[j].offset as int;
        let w = lsecs[j].2.len() as int;
        lemma_written_keeps_after(out2, ehsize, ptab, o, w);
        lemma_written_keeps(out3, shoff as int, stab, o, w);
        lemma_written_keeps_after(out4, 0, hb, o, w);
    }
}

/// The ELF header and the program header table that the file layout writes
/// read back.
#[verifier::spinoff_prover]
#[verifier::rlimit(60)]
pub proof fn lemma_layout_headers(
    ident: ElfIdent,
    header: ElfHeader,
    segs: Seq<SegmentView>,
    secs: Seq<SectionView>,
    b: Seq<u8>,
)
    requires
        layout_fits(ident, header, segs, secs),
        layout_windows(ident, header, segs, secs, b),
    ensures
        headers_of(b) == Some(
            (ident, lay_header(ident, header, segs, secs), lay_segments(ident, segs).2),
        ),
{
    let class = ident.class;
    let e = ident.data;
    let ehsize = ehdr_size(class);
    let n = phdr_size(class);
    let ph = lay_segments(ident, segs).2;
    let ptab = phdr_table_bytes(ph, e, class);
    let h = lay_header(ident, header, segs, secs);
    let hb = h.bytes_spec();
    crate::header::lemma_elf_header_len(h);
    assert(h.ident == ident);
    assert(h.fits());
    lemma_split_at(b, 0, hb);
    assert(b.take(0) + hb + b.skip(ehsize) =~= hb + b.skip(ehsize));
    crate::header::lemma_elf_header_round_trip(h, b.skip(ehsize));
    assert(ident_of_bytes(window(b, 0, 16)) == Some(ident));
    assert(h.phnum == ph.len());
    assert forall|i: int| 0 <= i < ph.len() implies #[trigger] phdr_offset(h, i) + n <= u64::MAX
        && in_range(b, phdr_offset(h, i), n) && ProgramHeader::from_bytes(
        b,
        phdr_offset(h, i),
        e,
        class,
    ) == ph[i] by {
        assert(i * n + n <= ph.len() * n) by (nonlinear_arith)
            requires
                i < ph.len(),
                n >= 0,
        ;
        assert(phdr_offset(h, i) == ehsize + i * n);
        lemma_phdr_table_index(ph, e, class, i);
        lemma_subwindow(b, ehsize, ptab, i * n, n);
        let off = ehsize + i * n;
        let pb = ph[i].bytes_spec(e, class);
        lemma_phdr_bytes_len(ph[i], e, class);
        lemma_split_at(b, off, pb);
        assert(segs[i] == segs[i]);
        assert(ph[i].fits(class));
        crate::program::lemma_program_header_round_trip(ph[i], e, class, b.take(off), b.skip(off + n));
    }
    assert(phdr_table_ok(b, h));
    assert(phdr_table(b, h) =~= ph);
}

/// The section header table and the sections that the file layout writes
/// read back.
#[verifier::spinoff_prover]
#[verifier::rlimit(60)]
pub proof fn lemma_layout_sections_back(
    ident: ElfIdent,
    header: ElfHeader,
    segs: Seq<SegmentView>,
    secs: Seq<SectionView>,
    b: Seq<u8>,
)
    requires
        layout_fits(ident, header, segs, secs),
        layout_windows(ident, header, segs, secs, b),
    ensures
        ({
            let h = lay_header(ident, header, segs, secs);
            let lsecs = layout_sections(secs).0;
            &&& section_table_present(h) == (secs.len() > 0)
            &&& section_table_present(h) ==> shdr_table_ok(b, h) && shdr_table(b, h)
                == lay_sections(ident, segs, secs).2
            &&& forall|j: int|
                0 <= j < lsecs.len() ==> file_section_ok(b, #[trigger] lay_sections(ident, segs, secs).2[j])
                    && (!lsecs[j].0.nobits_spec() ==> file_section_bytes(
                    b,
                    lay_sections(ident, segs, secs).2[j],
                ) == lsecs[j].2)
        }),
{
    let class = ident.class;
    let e = ident.data;
    let ehsize = ehdr_size(class);
    let shs = lay_sections(ident, segs, secs).2;
    let lsecs = layout_sections(secs).0;
    let shoff = lay_shoff(ident, segs, secs);
    let stab = shdr_table_bytes(shs, e, class);
    let h = lay_header(ident, header, segs, secs);
    let m = shdr_size(class);
    lemma_layout_sections_fit(secs, class);
    assert forall|j: int| 0 <= j < lsecs.len() implies file_section_ok(b, #[trigger] shs[j]) && (
    !lsecs[j].0.nobits_spec() ==> file_section_bytes(b, shs[j]) == lsecs[j].2) by {
        assert(lsecs[j] == lsecs[j]);
        if !lsecs[j].0.nobits_spec() && lsecs[j].2.len() == 0 {
            assert(lsecs[j].2 =~= Seq::<u8>::empty());
        }
    }
    if lsecs.len() > 0 {
        assert(section_table_present(h));
        assert(h.shnum == lsecs.len());
        assert(shdr_stride(h) == m);
        assert forall|j: int| 0 <= j < lsecs.len() implies #[trigger] shdr_offset(h, j) + m
            <= u64::MAX && in_range(b, shdr_offset(h, j), m) && SectionHeader::from_bytes(
            b,
            shdr_offset(h, j),
            e,
            class,
        ) == shs[j] by {
            assert(j * m + m <= lsecs.len() * m) by (nonlinear_arith)
                requires
                    j < lsecs.len(),
                    m >= 0,
            ;
            assert(shdr_offset(h, j) == shoff + j * m);
            lemma_shdr_table_index(shs, e, class, j);
            lemma_subwindow(b, shoff as int, stab, j * m, m);
            let off = shoff + j * m;
            let sb = shs[j].bytes_spec(e, class);
            lemma_shdr_bytes_len(shs[j], e, class);
            lemma_split_at(b, off, sb);
            assert(lsecs[j] == lsecs[j]);
            assert(shs[j].fits(class));
            crate::section::lemma_section_header_round_trip(shs[j], e, class, b.take(off), b.skip(off + m));
        }
        assert(shdr_table_ok(b, h));
        assert(shdr_table(b, h) =~= shs);
    } else {
        assert(!section_table_present(h));
    }
}

/// The bytes an object is laid out to in file layout parse back: the parse
/// succeeds, finds the identification, the ELF header with only its table
/// geometry changed, every program header with only its file range
/// changed, every segment's stored bytes, and every section's bytes.
pub proof fn lemma_file_layout_round_trip(
    ident: ElfIdent,
    header: ElfHeader,
    segs: Seq<SegmentView>,
    secs: Seq<SectionView>,
)
    requires
        layout_fits(ident, header, segs, secs),
        file_bytes_of(ident, header, segs, secs) is Some,
    ensures
        ({
            let b = file_bytes_of(ident, header, segs, secs)->0;
            &&& file_layout_ok(b)
            &&& headers_of(b) matches Some((id, h, ph)) && {
                &&& id == ident
                &&& same_but_tables(h, header)
                &&& ph.len() == segs.len()
                &&& forall|i: int|
                    0 <= i < segs.len() ==> same_but_range(#[trigger] ph[i], segs[i].0)
                        && file_segment_bytes(b, ph[i]) == stored_segment_bytes(segs[i])
                &&& section_table_present(h) == (secs.len() > 0)
                &&& section_table_present(h) ==> {
                    let lv = layout_sections(secs).0;
                    let sh = shdr_table(b, h);
                    &&& sh.len() == lv.len()
                    &&& forall|j: int|
                        0 <= j < lv.len() && !(#[trigger] lv[j]).0.nobits_spec()
                            ==> file_section_bytes(b, sh[j]) == lv[j].2
                }
            }
        }),
{
    let b = file_bytes_of(ident, header, segs, secs)->0;
    let h = lay_header(ident, header, segs, secs);
    let ph = lay_segments(ident, segs).2;
    lemma_layout_windows(ident, header, segs, secs);
    lemma_layout_headers(ident, header, segs, secs, b);
    lemma_layout_sections_back(ident, header, segs, secs, b);
    assert forall|i: int| 0 <= i < segs.len() implies same_but_range(#[trigger] ph[i], segs[i].0)
        && file_segment_ok(b, ph[i]) && file_segment_bytes(b, ph[i]) == stored_segment_bytes(segs[i]) by {
        assert(segs[i] == segs[i]);
    }
    assert(file_layout_ok(b));
}

/// Whether a name holds no NUL character.
pub open spec fn no_nul(name: Seq<char>) -> bool {
    forall|i: int| 0 <= i < name.len() ==> (#[trigger] name[i]) as u32 != 0
}

/// The UTF-8 encoding of a name without NUL characters holds no zero byte.
pub proof fn lemma_encode_no_nul(chars: Seq<char>)
    requires
        no_nul(chars),
    ensures
        forall|j: int|
            0 <= j < vstd::utf8::encode_utf8(chars).len() ==> #[trigger] vstd::utf8::encode_utf8(chars)[j]
                != 0u8,
    decreases chars.len(),
{
    if chars.len() > 0 {
        let rest = chars.drop_first();
        assert forall|i: int| 0 <= i < rest.len() implies (#[trigger] rest[i]) as u32 != 0 by {
            assert(rest[i] == chars[i + 1]);
        }
        lemma_encode_no_nul(rest);
        let c = chars[0] as u32;
        assert(c != 0) by {
            assert(chars[0] as u32 != 0);
        }
        let head = vstd::utf8::encode_scalar(c);
        assert forall|j: int| 0 <= j < head.len() implies #[trigger] head[j] != 0u8 by {
            assert(forall|x: u32| 1 <= x <= 0x7F ==> ((x & 0x7F) as u8) != 0u8) by (bit_vector);
            assert(forall|x: u8| (0xC0u8 | x) != 0u8) by (bit_vector);
            assert(forall|x: u8| (0xE0u8 | x) != 0u8) by (bit_vector);
            assert(forall|x: u8| (0xF0u8 | x) != 0u8) by (bit_vector);
            assert(forall|x: u8| (0x80u8 | x) != 0u8) by (bit_vector);
        }
        let enc = vstd::utf8::encode_utf8(chars);
        assert(enc == head + vstd::utf8::encode_utf8(rest));
    }
}

/// The section-name blob up to a section is a prefix of the blob up to any
/// later section.
pub proof fn lemma_name_blob_prefix(v: Seq<SectionView>, j: int, n: int)
    requires
        0 <= j <= n,
    ensures
        super::serialize::name_blob(v, j).len() <= super::serialize::name_blob(v, n).len(),
        super::serialize::name_blob(v, n).take(super::serialize::name_blob(v, j).len() as int)
            == super::serialize::name_blob(v, j),
    decreases n - j,
{
    if j < n {
        lemma_name_blob_prefix(v, j, n - 1);
        let a = super::serialize::name_blob(v, j);
        let b = super::serialize::name_blob(v, n - 1);
        let c = super::serialize::name_blob(v, n);
        assert(c == b + vstd::utf8::encode_utf8(v[n - 1].1) + seq![0u8]);
        assert(c.take(a.len() as int) =~= b.take(a.len() as int));
    } else {
        let a = super::serialize::name_blob(v, j);
        assert(a.take(a.len() as int) =~= a);
    }
}

/// The first NUL at or after `i` is at `k` when the bytes between are not
/// NUL and the byte at `k` is.
pub proof fn lemma_first_nul_at(t: Seq<u8>, i: int, k: int)
    requires
        0 <= i <= k < t.len(),
        forall|m: int| i <= m < k ==> #[trigger] t[m] != 0u8,
        t[k] == 0u8,
    ensures
        crate::strtab::first_nul_from(t, i) == k,
    decreases k - i,
{
    if i < k {
        lemma_first_nul_at(t, i + 1, k);
    }
}

/// In the section-name blob, the string at a section's name offset is its
/// name, when the name holds no NUL character.
pub proof fn lemma_blob_name(v: Seq<SectionView>, j: int)
    requires
        0 <= j < v.len(),
        no_nul(v[j].1),
    ensures
        crate::strtab::string_or_empty(
            super::serialize::name_blob(v, v.len() as int),
            super::serialize::name_blob(v, j).len() as int,
        ) == v[j].1,
{
    let blob = super::serialize::name_blob(v, v.len() as int);
    let pre = super::serialize::name_blob(v, j);
    let enc = vstd::utf8::encode_utf8(v[j].1);
    let upto = super::serialize::name_blob(v, j + 1);
    assert(upto == pre + enc + seq![0u8]);
    lemma_name_blob_prefix(v, j + 1, v.len() as int);
    lemma_encode_no_nul(v[j].1);
    let off = pre.len() as int;
    assert forall|m: int| off <= m < off + enc.len() implies #[trigger] blob[m] != 0u8 by {
        assert(blob.take(upto.len() as int)[m] == upto[m]);
        assert(upto[m] == enc[m - off]);
    }
    assert(blob.take(upto.len() as int)[off + enc.len()] == upto[off + enc.len()]);
    lemma_first_nul_at(blob, off, off + enc.len());
    let cs = crate::strtab::c_string_at(blob, off);
    assert(cs =~= enc) by {
        assert forall|m: int| 0 <= m < enc.len() implies cs[m] == enc[m] by {
            assert(blob.take(upto.len() as int)[off + m] == upto[off + m]);
        }
    }
    vstd::utf8::encode_utf8_valid_utf8(v[j].1);
    vstd::utf8::encode_utf8_decode_utf8(v[j].1);
}

/// Where the section-name string table stands among the sections a file
/// layout writes, and what every section's name offset is.
pub proof fn lemma_layout_shstrtab(secs: Seq<SectionView>)
    requires
        secs.len() > 0,
        layout_sections(secs).0.len() <= u16::MAX,
    ensures
        ({
            let (lv, k) = layout_sections(secs);
            let w = super::serialize::with_shstrtab(secs).0;
            &&& lv.len() == w.len()
            &&& k < lv.len()
            &&& lv[k as int].0.kind.0 == crate::section::SectionType::STRTAB
            &&& lv[k as int].2 == super::serialize::name_blob(w, w.len() as int)
            &&& forall|j: int|
                0 <= j < lv.len() ==> (#[trigger] lv[j]).0.name_index == super::serialize::name_blob(
                    w,
                    j,
                ).len() as u32 && lv[j].1 == w[j].1
        }),
{
    let p = super::serialize::shstrtab_pred();
    let i = first_match(secs, p, 0);
    super::lemma_first_match(secs, p, 0);
    let (w, k) = super::serialize::with_shstrtab(secs);
    let lv = layout_sections(secs).0;
    assert(lv == super::serialize::named_views(w));
    if i < secs.len() {
        assert(w == secs);
        assert(k == i);
        assert(super::serialize::is_shstrtab_view(w[i]));
    } else {
        assert(k == secs.len());
        assert(super::serialize::is_shstrtab_view(w[secs.len() as int]));
    }
}

/// The names the parse of a file layout gives its sections are their names,
/// for every name without a NUL character.
pub proof fn lemma_layout_names(
    ident: ElfIdent,
    header: ElfHeader,
    segs: Seq<SegmentView>,
    secs: Seq<SectionView>,
    b: Seq<u8>,
)
    requires
        layout_fits(ident, header, segs, secs),
        layout_windows(ident, header, segs, secs, b),
        secs.len() > 0,
    ensures
        super::parse::shstrtab_ok(
            b,
            lay_header(ident, header, segs, secs),
            shdr_table(b, lay_header(ident, header, segs, secs)),
        ),
        ({
            let h = lay_header(ident, header, segs, secs);
            let lv = layout_sections(secs).0;
            forall|j: int|
                0 <= j < lv.len() && no_nul((#[trigger] lv[j]).1) ==> super::parse::file_section_name(
                    b,
                    h,
                    shdr_table(b, h),
                    j,
                ) == lv[j].1
        }),
{
    let h = lay_header(ident, header, segs, secs);
    let (lv, k) = layout_sections(secs);
    let w = super::serialize::with_shstrtab(secs).0;
    let shs = lay_sections(ident, segs, secs).2;
    let blob = super::serialize::name_blob(w, w.len() as int);
    lemma_layout_sections_back(ident, header, segs, secs, b);
    lemma_layout_shstrtab(secs);
    lemma_layout_sections_fit(secs, ident.class);
    assert(shdr_table(b, h) == shs);
    assert(h.shstrndx == k);
    assert(lv[k as int] == lv[k as int]);
    assert(blob.len() > 0) by {
        if w.len() > 0 {
            lemma_name_blob_prefix(w, 0, w.len() as int);
        }
    }
    assert(super::parse::shstrtab_ok(b, h, shs));
    assert(super::parse::shstrtab_bytes(b, h, shs) == blob);
    assert forall|j: int| 0 <= j < lv.len() && no_nul((#[trigger] lv[j]).1) implies super::parse::file_section_name(
        b,
        h,
        shs,
        j,
    ) == lv[j].1 by {
        lemma_name_blob_prefix(w, j, w.len() as int);
        assert(shs[j].name_index == lv[j].0.name_index);
        assert(super::serialize::name_blob(w, j).len() <= MAX_IMAGE);
        lemma_blob_name(w, j);
    }
}

/// Whether an image's headers can be written in file layout and read back
/// unchanged; see [`layout_fits`].
pub open spec fn image_layout_fits(img: ElfImage) -> bool {
    layout_fits(
        img.ident_spec(),
        img.header_spec(),
        segment_views(img.segments_spec()),
        section_views(img.sections_spec()),
    )
}

/// Segments whose headers differ at most in their file ranges have the
/// same load records.
proof fn lemma_load_records_same_but_range(a: Seq<Segment>, b: Seq<Segment>)
    requires
        a.len() == b.len(),
        forall|i: int| 0 <= i < a.len() ==> same_but_range(#[trigger] a[i].header, b[i].header),
    ensures
        load_records_spec(a) == load_records_spec(b),
    decreases a.len(),
{
    if a.len() > 0 {
        assert(same_but_range(a[a.len() - 1].header, b[b.len() - 1].header));
        lemma_load_records_same_but_range(a.drop_last(), b.drop_last());
    }
}

/// Laying an object out and parsing the bytes back: the parse succeeds, and
/// the parsed image has the identification, the header fields other than
/// the table geometry, every program header with only its file range
/// changed, each segment's stored bytes, each section's bytes, and each name
/// without a NUL character.
pub proof fn lemma_parse_after_layout(
    ident: ElfIdent,
    header: ElfHeader,
    segs: Seq<SegmentView>,
    secs: Seq<SectionView>,
    parsed: ElfImage,
)
    requires
        layout_fits(ident, header, segs, secs),
        file_bytes_of(ident, header, segs, secs) is Some,
    ensures
        file_layout_ok(file_bytes_of(ident, header, segs, secs)->0),
        file_image_matches(file_bytes_of(ident, header, segs, secs)->0, parsed) ==> {
            let ps = parsed.segments_spec();
            let lv = layout_sections(secs).0;
            let pc = parsed.sections_spec();
            &&& parsed.ident_spec() == ident
            &&& same_but_tables(parsed.header_spec(), header)
            &&& ps.len() == segs.len()
            &&& forall|i: int|
                0 <= i < segs.len() ==> same_but_range(#[trigger] ps[i].header, segs[i].0)
                    && ps[i].header.filesz == seg_writable(segs[i])
                    && ps[i].data@ == stored_segment_bytes(segs[i])
            &&& (pc.len() > 0) == (secs.len() > 0)
            &&& pc.len() > 0 ==> pc.len() == lv.len()
            &&& forall|j: int|
                0 <= j < pc.len() && !(#[trigger] lv[j]).0.nobits_spec() ==> pc[j].data@ == lv[j].2
            &&& forall|j: int|
                0 <= j < pc.len() && no_nul((#[trigger] lv[j]).1) ==> pc[j].name@ == lv[j].1
        },
{
    let b = file_bytes_of(ident, header, segs, secs)->0;
    lemma_file_layout_round_trip(ident, header, segs, secs);
    if file_image_matches(b, parsed) {
        let ps = parsed.segments_spec();
        let lv = layout_sections(secs).0;
        let pc = parsed.sections_spec();
        let h = parsed.header_spec();
        lemma_layout_windows(ident, header, segs, secs);
        lemma_layout_headers(ident, header, segs, secs, b);
        let ph = lay_segments(ident, segs).2;
        assert forall|i: int| 0 <= i < segs.len() implies (#[trigger] ps[i]).header.filesz
            == seg_writable(segs[i]) by {
            assert(ps[i].header == ph[i]);
        }
        if pc.len() > 0 {
            assert(section_table_present(h));
        }
        assert forall|j: int| 0 <= j < pc.len() && !(#[trigger] lv[j]).0.nobits_spec() implies pc[j].data@
            == lv[j].2 by {
            assert(pc[j].data@ == file_section_bytes(b, shdr_table(b, h)[j]));
        }
        if secs.len() > 0 {
            lemma_layout_windows(ident, header, segs, secs);
            lemma_layout_headers(ident, header, segs, secs, b);
            lemma_layout_names(ident, header, segs, secs, b);
            assert(h == lay_header(ident, header, segs, secs));
            assert forall|j: int| 0 <= j < pc.len() && no_nul((#[trigger] lv[j]).1) implies pc[j].name@
                == lv[j].1 by {
                assert(pc[j].name@ == super::parse::file_section_name(b, h, shdr_table(b, h), j));
            }
        }
    }
}

/// Serializing an image and parsing the bytes back: the parse succeeds, and
/// the parsed image has the identification, the header fields other than
/// the table geometry, every program header with only its file range
/// changed and so the same image geometry, each segment's stored bytes, and
/// each section's bytes.
pub proof fn lemma_parse_after_build(img: ElfImage, parsed: ElfImage)
    requires
        image_layout_fits(img),
        file_bytes_spec(img) is Some,
    ensures
        file_layout_ok(file_bytes_spec(img)->0),
        file_image_matches(file_bytes_spec(img)->0, parsed) ==> {
            let segs = img.segments_spec();
            let ps = parsed.segments_spec();
            let lv = layout_sections(section_views(img.sections_spec())).0;
            let pc = parsed.sections_spec();
            &&& parsed.ident_spec() == img.ident_spec()
            &&& same_but_tables(parsed.header_spec(), img.header_spec())
            &&& ps.len() == segs.len()
            &&& forall|i: int|
                0 <= i < segs.len() ==> same_but_range(#[trigger] ps[i].header, segs[i].header)
                    && ps[i].data@ == stored_segment_bytes(segs[i]@)
            &&& image_geometry(&parsed) == image_geometry(&img)
            &&& (pc.len() > 0) == (img.sections_spec().len() > 0)
            &&& pc.len() > 0 ==> pc.len() == lv.len()
            &&& forall|j: int|
                0 <= j < pc.len() && !(#[trigger] lv[j]).0.nobits_spec() ==> pc[j].data@ == lv[j].2
            &&& forall|j: int|
                0 <= j < pc.len() && no_nul((#[trigger] lv[j]).1) ==> pc[j].name@ == lv[j].1
        },
{
    let ident = img.ident_spec();
    let header = img.header_spec();
    let segs = segment_views(img.segments_spec());
    let secs = section_views(img.sections_spec());
    let b = file_bytes_spec(img)->0;
    lemma_file_layout_round_trip(ident, header, segs, secs);
    if file_image_matches(b, parsed) {
        let ps = parsed.segments_spec();
        assert forall|i: int| 0 <= i < segs.len() implies same_but_range(
            #[trigger] ps[i].header,
            img.segments_spec()[i].header,
        ) && ps[i].data@ == stored_segment_bytes(img.segments_spec()[i]@) by {
            assert(segs[i] == img.segments_spec()[i]@);
        }
        lemma_load_records_same_but_range(ps, img.segments_spec());
        let lv = layout_sections(secs).0;
        let pc = parsed.sections_spec();
        let h = parsed.header_spec();
        if pc.len() > 0 {
            assert(section_table_present(h));
        }
        assert forall|j: int| 0 <= j < pc.len() && !(#[trigger] lv[j]).0.nobits_spec() implies pc[j].data@
            == lv[j].2 by {
            assert(pc[j].data@ == file_section_bytes(b, shdr_table(b, h)[j]));
        }
        if secs.len() > 0 {
            lemma_layout_windows(ident, header, segs, secs);
            lemma_layout_headers(ident, header, segs, secs, b);
            lemma_layout_names(ident, header, segs, secs, b);
            assert(h == lay_header(ident, header, segs, secs));
            assert forall|j: int| 0 <= j < pc.len() && no_nul((#[trigger] lv[j]).1) implies pc[j].name@
                == lv[j].1 by {
                assert(pc[j].name@ == super::parse::file_section_name(b, h, shdr_table(b, h), j));
            }
        }
    }
}

} // verus!

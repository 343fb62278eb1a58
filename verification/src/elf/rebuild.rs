//! Laying out again an image parsed from its own file layout gives the same
//! bytes, so a file in that layout survives a parse and a rebuild unchanged.

use vstd::prelude::*;

use crate::ident::ElfIdent;
use crate::header::{headers_of, phdr_offset, phdr_table, phdr_table_ok, ElfHeader};
use crate::program::{ProgramHeader, SegmentType};
use crate::reader::{in_range, window};
use crate::section::SectionHeader;

use super::edit::lemma_first_match_same;
use super::parse::{
    file_image_matches, file_layout_ok, file_section_bytes, file_section_name, file_section_ok,
    file_segment_bytes, file_segment_ok, section_table_present, section_views, shdr_offset,
    shdr_table, shdr_table_ok, shstrtab_bytes, shstrtab_ok,
};
use super::round_trip::{
    image_layout_fits, layout_fits, lay_header, lay_sections, lay_segments, lay_start, lay_zeros,
    lemma_layout_headers, lemma_layout_names, lemma_layout_sections_back, lemma_layout_shstrtab,
    lemma_file_layout_round_trip, lemma_layout_windows, lemma_name_blob_prefix, no_nul, same_but_range,
};
use super::serialize::{
    file_bytes_of, file_bytes_spec, is_shstrtab_view, layout_sections, name_blob,
    named_views, place_sections, place_segments, seg_writable, segment_views, shstrtab_pred,
    with_shstrtab, SectionCursor, SectionView, SegmentCursor, SegmentView, SHSTRTAB_NAME,
};
use super::{first_match, lemma_first_match, ElfImage};
use super::serialize::{lemma_phdr_table_len, lemma_shdr_table_len, phdr_table_bytes, shdr_table_bytes, written};
use super::round_trip::lay_shoff;
use crate::elf_file::{sections_end, segments_end, structure_end, trailing_of, ElfFile};
use crate::header::ehdr_size;
use crate::program::{phdr_size, Segment};
use crate::section::{shdr_size, Section};

verus! {

/// Whether the file layout places two segments alike: their headers differ
/// at most in the file range, and it stores the same bytes of each.
pub open spec fn segments_alike(a: SegmentView, b: SegmentView) -> bool {
    &&& same_but_range(a.0, b.0)
    &&& seg_writable(a) == seg_writable(b)
    &&& a.1.take(seg_writable(a)) == b.1.take(seg_writable(b))
}

/// Segments placed alike one by one are placed alike together.
proof fn lemma_place_segments_alike(a: Seq<SegmentView>, b: Seq<SegmentView>, start: SegmentCursor)
    requires
        a.len() == b.len(),
        forall|i: int| 0 <= i < a.len() ==> segments_alike(#[trigger] a[i], b[i]),
    ensures
        place_segments(a, start) == place_segments(b, start),
    decreases a.len(),
{
    if a.len() > 0 {
        let n = a.len() - 1;
        assert(segments_alike(a[n], b[n]));
        assert forall|i: int| 0 <= i < n implies segments_alike(
            #[trigger] a.drop_last()[i],
            b.drop_last()[i],
        ) by {
            assert(segments_alike(a[i], b[i]));
        }
        lemma_place_segments_alike(a.drop_last(), b.drop_last(), start);
    }
}

/// Whether the file layout places two sections alike: a `NOBITS` section
/// keeps its header, an empty one its header but the size, and one with
/// bytes the same bytes and its header but the file range.
pub open spec fn sections_alike(x: SectionView, y: SectionView) -> bool {
    &&& x.0.nobits_spec() == y.0.nobits_spec()
    &&& x.0.nobits_spec() ==> x.0 == y.0
    &&& !x.0.nobits_spec() ==> {
        &&& x.2 == y.2
        &&& x.2.len() == 0 ==> SectionHeader { size: 0, ..x.0 } == SectionHeader { size: 0, ..y.0 }
        &&& x.2.len() > 0 ==> SectionHeader { offset: 0, size: 0, ..x.0 } == SectionHeader {
            offset: 0,
            size: 0,
            ..y.0
        }
    }
}

/// Sections placed alike one by one are placed alike together.
proof fn lemma_place_sections_alike(a: Seq<SectionView>, b: Seq<SectionView>, start: SectionCursor)
    requires
        a.len() == b.len(),
        forall|i: int| 0 <= i < a.len() ==> sections_alike(#[trigger] a[i], b[i]),
    ensures
        place_sections(a, start) == place_sections(b, start),
    decreases a.len(),
{
    if a.len() > 0 {
        let n = a.len() - 1;
        assert(sections_alike(a[n], b[n]));
        assert forall|i: int| 0 <= i < n implies sections_alike(
            #[trigger] a.drop_last()[i],
            b.drop_last()[i],
        ) by {
            assert(sections_alike(a[i], b[i]));
        }
        lemma_place_sections_alike(a.drop_last(), b.drop_last(), start);
    }
}

/// The section-name blob depends on the names alone.
proof fn lemma_name_blob_names(a: Seq<SectionView>, b: Seq<SectionView>, n: int)
    requires
        0 <= n <= a.len(),
        n <= b.len(),
        forall|j: int| 0 <= j < n ==> (#[trigger] a[j]).1 == b[j].1,
    ensures
        name_blob(a, n) == name_blob(b, n),
    decreases n,
{
    if n > 0 {
        assert(a[n - 1].1 == b[n - 1].1);
        lemma_name_blob_names(a, b, n - 1);
    }
}

/// No element from `i` up to the last one matches, and the last one does:
/// the first match from `i` is the last element.
proof fn lemma_first_match_last<T>(s: Seq<T>, p: spec_fn(T) -> bool, i: int)
    requires
        0 <= i < s.len(),
        forall|j: int| i <= j < s.len() - 1 ==> !p(#[trigger] s[j]),
        p(s[s.len() - 1]),
    ensures
        first_match(s, p, i) == s.len() - 1,
    decreases s.len() - i,
{
    if i < s.len() - 1 {
        assert(!p(s[i]));
        lemma_first_match_last(s, p, i + 1);
    }
}

/// The section-name string table's name holds no NUL character.
proof fn lemma_shstrtab_name_no_nul()
    ensures
        no_nul(SHSTRTAB_NAME@),
{
    reveal_strlit(".shstrtab");
    assert(SHSTRTAB_NAME@ == ".shstrtab"@);
}

/// The section-name string table the layout uses is the first one among
/// its sections.
proof fn lemma_with_shstrtab_first(v: Seq<SectionView>)
    requires
        v.len() > 0,
        with_shstrtab(v).0.len() <= u16::MAX,
    ensures
        ({
            let (w, k) = with_shstrtab(v);
            &&& k < w.len()
            &&& first_match(w, shstrtab_pred(), 0) == k as int
        }),
{
    let p = shstrtab_pred();
    let i = first_match(v, p, 0);
    lemma_first_match(v, p, 0);
    let (w, k) = with_shstrtab(v);
    if i < v.len() {
        assert(k == i);
    } else {
        assert(w == v.push((super::serialize::new_shstrtab_header(), SHSTRTAB_NAME@, Seq::empty())));
        assert(p(w[v.len() as int]));
        assert forall|j: int| 0 <= j < w.len() - 1 implies !p(#[trigger] w[j]) by {
            assert(w[j] == v[j]);
        }
        lemma_first_match_last(w, p, 0);
    }
}

/// The facts about the parse of a file layout that laying it out again
/// needs: the parsed image holds the identification, the header the layout
/// wrote, the program headers it wrote with the stored bytes, and the
/// section headers it wrote with their bytes and names.
#[verifier::spinoff_prover]
#[verifier::rlimit(60)]
proof fn lemma_relaid_sections(
    ident: ElfIdent,
    header: ElfHeader,
    segs: Seq<SegmentView>,
    v: Seq<SectionView>,
    parsed: ElfImage,
)
    requires
        layout_fits(ident, header, segs, v),
        file_bytes_of(ident, header, segs, v) is Some,
        forall|j: int| 0 <= j < v.len() ==> no_nul(#[trigger] v[j].1),
        file_image_matches(file_bytes_of(ident, header, segs, v)->0, parsed),
        v.len() > 0,
    ensures
        ({
            let (lv, k) = layout_sections(v);
            let (pw, pk) = layout_sections(section_views(parsed.sections_spec()));
            &&& pk == k
            &&& pw.len() == lv.len()
            &&& forall|j: int| 0 <= j < lv.len() ==> sections_alike(#[trigger] pw[j], lv[j])
        }),
{
    let b = file_bytes_of(ident, header, segs, v)->0;
    lemma_layout_windows(ident, header, segs, v);
    lemma_layout_headers(ident, header, segs, v, b);
    lemma_layout_sections_back(ident, header, segs, v, b);
    lemma_layout_names(ident, header, segs, v, b);
    lemma_layout_shstrtab(v);
    let h = lay_header(ident, header, segs, v);
    let shs = lay_sections(ident, segs, v).2;
    let (lv, k) = layout_sections(v);
    let (w, k0) = with_shstrtab(v);
    assert(k0 == k);
    let blob = name_blob(w, w.len() as int);
    let pc = parsed.sections_spec();
    let pv = section_views(pc);
    assert(parsed.header_spec() == h);
    assert(super::parse::shdr_table(b, h) == shs);
    assert(pv.len() == lv.len());
    lemma_with_shstrtab_first(v);
    lemma_shstrtab_name_no_nul();
    assert(blob.len() > 0) by {
        lemma_name_blob_prefix(w, 0, w.len() as int);
    }
    assert forall|j: int| 0 <= j < pv.len() implies (#[trigger] pv[j]).0 == shs[j] && pv[j].1
        == w[j].1 && (!pv[j].0.nobits_spec() ==> pv[j].2 == lv[j].2) by {
        assert(pc[j].header == shs[j]);
        assert(lv[j].1 == w[j].1);
        if j < v.len() {
            assert(w[j] == v[j]);
        } else {
            assert(w[j].1 == SHSTRTAB_NAME@);
        }
        assert(no_nul(lv[j].1));
        assert(pc[j].name@ == super::parse::file_section_name(b, h, super::parse::shdr_table(b, h), j));
        assert(pc[j].data@ == super::parse::file_section_bytes(b, super::parse::shdr_table(b, h)[j]));
    }
    let p = shstrtab_pred();
    assert forall|j: int| 0 <= j < w.len() implies p(#[trigger] pv[j]) == p(w[j]) by {
        assert(lv[j] == named_views(w)[j]);
        assert(pv[j].0.kind == lv[j].0.kind);
    }
    lemma_first_match_same(w, pv, p, 0);
    assert(with_shstrtab(pv) == (pv, k));
    let pw = named_views(pv);
    assert(layout_sections(pv) == (pw, k));
    lemma_name_blob_names(pv, w, pv.len() as int);
    assert forall|j: int| 0 <= j < lv.len() implies sections_alike(#[trigger] pw[j], lv[j]) by {
        lemma_name_blob_names(pv, w, j);
        assert(lv[j] == named_views(w)[j]);
        assert(pw[j] == named_views(pv)[j]);
        assert(is_shstrtab_view(pv[j]) == is_shstrtab_view(w[j])) by {
            assert(p(pv[j]) == p(w[j]));
        }
        assert(lv[j].0.name_index == name_blob(w, j).len() as u32);
    }
}

/// Laying out again the image that the parse of an object's file layout
/// gives produces the same bytes, provided that no `PT_NULL` segment has
/// bytes the layout stores and no section name holds a NUL character.
#[verifier::spinoff_prover]
#[verifier::rlimit(60)]
pub proof fn lemma_relayout(
    ident: ElfIdent,
    header: ElfHeader,
    segs: Seq<SegmentView>,
    v: Seq<SectionView>,
    parsed: ElfImage,
)
    requires
        layout_fits(ident, header, segs, v),
        file_bytes_of(ident, header, segs, v) is Some,
        forall|i: int|
            0 <= i < segs.len() && (#[trigger] segs[i]).0.kind.0 == SegmentType::NULL ==> seg_writable(
                segs[i],
            ) == 0,
        forall|j: int| 0 <= j < v.len() ==> no_nul(#[trigger] v[j].1),
        file_image_matches(file_bytes_of(ident, header, segs, v)->0, parsed),
    ensures
        file_bytes_spec(parsed) == file_bytes_of(ident, header, segs, v),
{
    let b = file_bytes_of(ident, header, segs, v)->0;
    lemma_layout_windows(ident, header, segs, v);
    lemma_layout_headers(ident, header, segs, v, b);
    let h = lay_header(ident, header, segs, v);
    let ph = lay_segments(ident, segs).2;
    assert(parsed.ident_spec() == ident);
    assert(parsed.header_spec() == h);
    let ps = segment_views(parsed.segments_spec());
    assert(ps.len() == segs.len());
    assert forall|i: int| 0 <= i < segs.len() implies segments_alike(#[trigger] ps[i], segs[i]) by {
        let w = seg_writable(segs[i]);
        assert(parsed.segments_spec()[i].header == ph[i]);
        assert(ps[i] == parsed.segments_spec()[i]@);
        assert(ps[i].1 == super::parse::file_segment_bytes(b, ph[i]));
        if w > 0 {
            assert(ps[i].1 =~= segs[i].1.take(w));
            assert(ps[i].1.take(w) =~= segs[i].1.take(w));
        } else {
            assert(ps[i].1.take(0) =~= segs[i].1.take(0));
        }
    }
    let start = (lay_start(ident, segs), lay_zeros(ident), Seq::<crate::program::ProgramHeader>::empty());
    lemma_place_segments_alike(ps, segs, start);
    let pv = section_views(parsed.sections_spec());
    if v.len() == 0 {
        assert(pv.len() == 0);
        assert(pv =~= v);
    } else {
        lemma_relaid_sections(ident, header, segs, v, parsed);
        let (lv, k) = layout_sections(v);
        let (pw, pk) = layout_sections(pv);
        let r = lay_segments(ident, segs);
        lemma_place_sections_alike(pw, lv, (r.0, r.1, Seq::empty()));
    }
}

/// Laying out again the image that the parse of an image's file layout
/// gives produces the same bytes, provided that no `PT_NULL` segment has
/// bytes the layout stores and no section name holds a NUL character.
pub proof fn lemma_build_parse_build(img: ElfImage, parsed: ElfImage)
    requires
        image_layout_fits(img),
        file_bytes_spec(img) is Some,
        forall|i: int|
            0 <= i < img.segments_spec().len() && (#[trigger] img.segments_spec()[i]).header.kind.0
                == SegmentType::NULL ==> seg_writable(img.segments_spec()[i]@) == 0,
        forall|j: int|
            0 <= j < img.sections_spec().len() ==> no_nul(#[trigger] img.sections_spec()[j].name@),
        file_image_matches(file_bytes_spec(img)->0, parsed),
    ensures
        file_bytes_spec(parsed) == file_bytes_spec(img),
{
    let segs = segment_views(img.segments_spec());
    let v = section_views(img.sections_spec());
    assert forall|i: int| 0 <= i < segs.len() && (#[trigger] segs[i]).0.kind.0 == SegmentType::NULL
        implies seg_writable(segs[i]) == 0 by {
        assert(segs[i] == img.segments_spec()[i]@);
    }
    assert forall|j: int| 0 <= j < v.len() implies no_nul(#[trigger] v[j].1) by {
        assert(v[j].1 == img.sections_spec()[j].name@);
    }
    lemma_relayout(img.ident_spec(), img.header_spec(), segs, v, parsed);
}

// ---- appending bytes after the layout ---------------------------------------

/// A window inside a sequence is the same window of any extension of it.
proof fn lemma_windows_extend(c: Seq<u8>, t: Seq<u8>)
    ensures
        forall|o: int, n: int|
            0 <= o && 0 <= n && o + n <= c.len() ==> #[trigger] window(c + t, o, n) == window(c, o, n),
{
    assert forall|o: int, n: int| 0 <= o && 0 <= n && o + n <= c.len() implies #[trigger] window(
        c + t,
        o,
        n,
    ) == window(c, o, n) by {
        assert(window(c + t, o, n) =~= window(c, o, n));
    }
}

/// Bytes appended after the headers leave the headers as they are.
proof fn lemma_headers_extend(c: Seq<u8>, t: Seq<u8>)
    requires
        headers_of(c) is Some,
    ensures
        headers_of(c + t) == headers_of(c),
{
    lemma_windows_extend(c, t);
    let (ident, h, _) = headers_of(c)->0;
    assert(window(c + t, 0, 16) == window(c, 0, 16));
    assert(ElfHeader::from_bytes(c + t, ident) == ElfHeader::from_bytes(c, ident));
    let n = crate::program::phdr_size(ident.class);
    assert forall|i: int| 0 <= i < h.phnum implies phdr_offset(h, i) + n <= u64::MAX && in_range(
        c + t,
        #[trigger] phdr_offset(h, i),
        n,
    ) && ProgramHeader::from_bytes(c + t, phdr_offset(h, i), ident.data, ident.class)
        == ProgramHeader::from_bytes(c, phdr_offset(h, i), ident.data, ident.class) by {
        assert(in_range(c, phdr_offset(h, i), n));
    }
    assert(phdr_table_ok(c + t, h));
    assert(phdr_table(c + t, h) =~= phdr_table(c, h));
}

/// Bytes appended after a file layout whose section-name string table can
/// be read leave its parse as it is.
#[verifier::spinoff_prover]
#[verifier::rlimit(40)]
proof fn lemma_file_layout_extend(c: Seq<u8>, t: Seq<u8>, img: ElfImage)
    requires
        file_layout_ok(c),
        headers_of(c) matches Some((_, h, _)) && (section_table_present(h) ==> shstrtab_ok(
            c,
            h,
            shdr_table(c, h),
        )),
    ensures
        file_layout_ok(c + t),
        file_image_matches(c + t, img) == file_image_matches(c, img),
{
    lemma_windows_extend(c, t);
    lemma_headers_extend(c, t);
    let (ident, h, ph) = headers_of(c)->0;
    assert forall|i: int| 0 <= i < ph.len() implies file_segment_ok(c + t, #[trigger] ph[i])
        && file_segment_bytes(c + t, ph[i]) == file_segment_bytes(c, ph[i]) by {
        assert(file_segment_ok(c, ph[i]));
    }
    if section_table_present(h) {
        let m = crate::section::shdr_size(ident.class);
        assert(h.ident == ident);
        assert forall|i: int| 0 <= i < h.shnum implies shdr_offset(h, i) + m <= u64::MAX && in_range(
            c + t,
            #[trigger] shdr_offset(h, i),
            m,
        ) && SectionHeader::from_bytes(c + t, shdr_offset(h, i), ident.data, ident.class)
            == SectionHeader::from_bytes(c, shdr_offset(h, i), ident.data, ident.class) by {
            assert(in_range(c, shdr_offset(h, i), m));
        }
        assert(shdr_table_ok(c + t, h));
        let raw = shdr_table(c, h);
        assert(shdr_table(c + t, h) =~= raw);
        assert forall|i: int| 0 <= i < h.shnum implies file_section_ok(c + t, #[trigger] raw[i])
            && file_section_bytes(c + t, raw[i]) == file_section_bytes(c, raw[i]) by {
            assert(file_section_ok(c, raw[i]));
        }
        assert(shstrtab_ok(c + t, h, raw));
        assert(shstrtab_bytes(c + t, h, raw) == shstrtab_bytes(c, h, raw));
        assert forall|i: int| 0 <= i < raw.len() implies #[trigger] file_section_name(c + t, h, raw, i)
            == file_section_name(c, h, raw, i) by {}
    }
    assert(file_layout_ok(c + t));
}

// ---- where the layout ends ----------------------------------------------------

/// The larger of `end` and the end of every file range that a program
/// header with a file size declares.
pub open spec fn phdr_ranges_end(ph: Seq<ProgramHeader>, end: int) -> int
    decreases ph.len(),
{
    if ph.len() == 0 {
        end
    } else {
        let e = phdr_ranges_end(ph.drop_last(), end);
        let h = ph.last();
        if h.filesz > 0 && h.offset + h.filesz > e {
            h.offset + h.filesz
        } else {
            e
        }
    }
}

/// The larger of `end` and the end of every file range that a section
/// header with file bytes declares.
pub open spec fn shdr_ranges_end(hs: Seq<SectionHeader>, end: int) -> int
    decreases hs.len(),
{
    if hs.len() == 0 {
        end
    } else {
        let e = shdr_ranges_end(hs.drop_last(), end);
        let h = hs.last();
        if !h.nobits_spec() && h.size > 0 && h.offset + h.size > e {
            h.offset + h.size
        } else {
            e
        }
    }
}

/// Placing segments grows the bytes to the end of the last range written.
proof fn lemma_place_segments_len(segs: Seq<SegmentView>, start: SegmentCursor)
    requires
        start.2.len() == 0,
        place_segments(segs, start) is Some,
    ensures
        (place_segments(segs, start)->0).1.len() == phdr_ranges_end(
            (place_segments(segs, start)->0).2,
            start.1.len() as int,
        ),
        (place_segments(segs, start)->0).2.len() == segs.len(),
    decreases segs.len(),
{
    if segs.len() > 0 {
        lemma_place_segments_len(segs.drop_last(), start);
        let r = place_segments(segs, start)->0;
        assert(r.2.drop_last() == (place_segments(segs.drop_last(), start)->0).2);
    }
}

/// Placing sections grows the bytes to the end of the last range written.
proof fn lemma_place_sections_len(v: Seq<SectionView>, start: SectionCursor)
    requires
        start.2.len() == 0,
        place_sections(v, start) is Some,
    ensures
        (place_sections(v, start)->0).1.len() == shdr_ranges_end(
            (place_sections(v, start)->0).2,
            start.1.len() as int,
        ),
        (place_sections(v, start)->0).2.len() == v.len(),
    decreases v.len(),
{
    if v.len() > 0 {
        lemma_place_sections_len(v.drop_last(), start);
        let r = place_sections(v, start)->0;
        assert(r.2.drop_last() == (place_sections(v.drop_last(), start)->0).2);
    }
}

/// Raising the starting end raises the ranges' end to at least it.
proof fn lemma_phdr_ranges_end_max(ph: Seq<ProgramHeader>, a: int, c: int)
    requires
        a <= c,
    ensures
        phdr_ranges_end(ph, c) == if phdr_ranges_end(ph, a) >= c {
            phdr_ranges_end(ph, a)
        } else {
            c
        },
    decreases ph.len(),
{
    if ph.len() > 0 {
        lemma_phdr_ranges_end_max(ph.drop_last(), a, c);
    }
}

/// Raising the starting end raises the ranges' end to at least it.
proof fn lemma_shdr_ranges_end_max(hs: Seq<SectionHeader>, a: int, c: int)
    requires
        a <= c,
    ensures
        shdr_ranges_end(hs, c) == if shdr_ranges_end(hs, a) >= c {
            shdr_ranges_end(hs, a)
        } else {
            c
        },
    decreases hs.len(),
{
    if hs.len() > 0 {
        lemma_shdr_ranges_end_max(hs.drop_last(), a, c);
    }
}

/// The segments' structural end is the end of their headers' ranges.
proof fn lemma_segments_end_ranges(s: Seq<Segment>, hs: Seq<ProgramHeader>, e: u64)
    requires
        s.len() == hs.len(),
        forall|i: int|
            0 <= i < hs.len() ==> (#[trigger] s[i]).header == hs[i] && (hs[i].filesz > 0
                ==> hs[i].offset + hs[i].filesz <= u64::MAX),
    ensures
        segments_end(s, e) == phdr_ranges_end(hs, e as int),
    decreases s.len(),
{
    if s.len() > 0 {
        let n = s.len() - 1;
        assert(s[n].header == hs[n]);
        assert forall|i: int| 0 <= i < n implies (#[trigger] s.drop_last()[i]).header
            == hs.drop_last()[i] && (hs.drop_last()[i].filesz > 0 ==> hs.drop_last()[i].offset
            + hs.drop_last()[i].filesz <= u64::MAX) by {
            assert(s[i].header == hs[i]);
        }
        lemma_segments_end_ranges(s.drop_last(), hs.drop_last(), e);
    }
}

/// The sections' structural end is the end of their headers' ranges.
proof fn lemma_sections_end_ranges(s: Seq<Section>, hs: Seq<SectionHeader>, e: u64)
    requires
        s.len() == hs.len(),
        forall|i: int|
            0 <= i < hs.len() ==> (#[trigger] s[i]).header == hs[i] && (!hs[i].nobits_spec()
                && hs[i].size > 0 ==> hs[i].offset + hs[i].size <= u64::MAX),
    ensures
        sections_end(s, e) == shdr_ranges_end(hs, e as int),
    decreases s.len(),
{
    if s.len() > 0 {
        let n = s.len() - 1;
        assert(s[n].header == hs[n]);
        assert forall|i: int| 0 <= i < n implies (#[trigger] s.drop_last()[i]).header
            == hs.drop_last()[i] && (!hs.drop_last()[i].nobits_spec() && hs.drop_last()[i].size > 0
            ==> hs.drop_last()[i].offset + hs.drop_last()[i].size <= u64::MAX) by {
            assert(s[i].header == hs[i]);
        }
        lemma_sections_end_ranges(s.drop_last(), hs.drop_last(), e);
    }
}

/// Where a file layout ends: past the ELF header, the program header table,
/// every segment and section range it writes, and the section header table.
pub open spec fn lay_end(ident: ElfIdent, segs: Seq<SegmentView>, v: Seq<SectionView>) -> int {
    let ph = lay_segments(ident, segs).2;
    let shs = lay_sections(ident, segs, v).2;
    let e1 = ehdr_size(ident.class) + ph.len() * phdr_size(ident.class);
    let e3 = shdr_ranges_end(shs, phdr_ranges_end(ph, e1));
    let t = if layout_sections(v).0.len() == 0 {
        0
    } else {
        lay_shoff(ident, segs, v) + shs.len() * shdr_size(ident.class)
    };
    if e3 >= t {
        e3
    } else {
        t
    }
}

/// The bytes of a file layout end where [`lay_end`] says.
#[verifier::spinoff_prover]
#[verifier::rlimit(60)]
proof fn lemma_layout_len(ident: ElfIdent, header: ElfHeader, segs: Seq<SegmentView>, v: Seq<SectionView>)
    requires
        header.ident == ident,
        file_bytes_of(ident, header, segs, v) is Some,
    ensures
        (file_bytes_of(ident, header, segs, v)->0).len() == lay_end(ident, segs, v),
{
    let class = ident.class;
    let e = ident.data;
    let ehsize = ehdr_size(class);
    let start = (lay_start(ident, segs), lay_zeros(ident), Seq::<ProgramHeader>::empty());
    let (cur1, out1, ph) = lay_segments(ident, segs);
    let lsecs = layout_sections(v).0;
    let (cur2, out2, shs) = lay_sections(ident, segs, v);
    let ptab = phdr_table_bytes(ph, e, class);
    let shoff = lay_shoff(ident, segs, v);
    let stab = shdr_table_bytes(shs, e, class);
    let h = lay_header(ident, header, segs, v);
    let out3 = written(out2, ehsize, ptab);
    let out4 = if lsecs.len() == 0 {
        out3
    } else {
        written(out3, shoff as int, stab)
    };
    assert(place_segments(segs, start) is Some);
    assert(place_sections(lsecs, (cur1, out1, Seq::empty())) is Some);
    lemma_place_segments_len(segs, start);
    lemma_place_sections_len(lsecs, (cur1, out1, Seq::empty()));
    assert(file_bytes_of(ident, header, segs, v) == Some(written(out4, 0, h.bytes_spec())));
    lemma_phdr_table_len(ph, e, class);
    lemma_shdr_table_len(shs, e, class);
    crate::header::lemma_elf_header_len(h);
    let e1 = ehsize + ptab.len();
    lemma_phdr_ranges_end_max(ph, ehsize, e1);
    lemma_phdr_ranges_end_max(ph, ehsize, ehsize);
    let x = phdr_ranges_end(ph, e1);
    lemma_shdr_ranges_end_max(shs, out1.len() as int, x);
    lemma_shdr_ranges_end_max(shs, out1.len() as int, out1.len() as int);
}

/// The bytes of a file layout end where the last structure that the parse
/// of them finds ends.
#[verifier::spinoff_prover]
#[verifier::rlimit(60)]
proof fn lemma_layout_end(img: ElfImage, parsed: ElfImage)
    requires
        image_layout_fits(img),
        file_bytes_spec(img) is Some,
        file_image_matches(file_bytes_spec(img)->0, parsed),
    ensures
        structure_end(parsed) == (file_bytes_spec(img)->0).len(),
{
    let ident = img.ident_spec();
    let header = img.header_spec();
    let segs = segment_views(img.segments_spec());
    let v = section_views(img.sections_spec());
    let b = file_bytes_spec(img)->0;
    let class = ident.class;
    lemma_layout_windows(ident, header, segs, v);
    lemma_layout_headers(ident, header, segs, v, b);
    lemma_layout_sections_back(ident, header, segs, v, b);
    lemma_layout_len(ident, header, segs, v);
    let ehsize = ehdr_size(class);
    let ph = lay_segments(ident, segs).2;
    let lsecs = layout_sections(v).0;
    let shs = lay_sections(ident, segs, v).2;
    let h = lay_header(ident, header, segs, v);
    let e1 = ehsize + ph.len() * phdr_size(class);
    let x = phdr_ranges_end(ph, e1);
    assert(parsed.header_spec() == h);
    assert(h.phoff == ehsize);
    assert(h.phnum == ph.len());
    let ps = parsed.segments_spec();
    assert forall|i: int| 0 <= i < ph.len() implies (#[trigger] ps[i]).header == ph[i] && (ph[i].filesz
        > 0 ==> ph[i].offset + ph[i].filesz <= u64::MAX) by {
        assert(segs[i] == segs[i]);
    }
    lemma_segments_end_ranges(ps, ph, e1 as u64);
    let pc = parsed.sections_spec();
    if lsecs.len() > 0 {
        assert(section_table_present(h));
        assert(shdr_table(b, h) == shs);
        assert forall|j: int| 0 <= j < shs.len() implies (#[trigger] pc[j]).header == shs[j] && (
        !shs[j].nobits_spec() && shs[j].size > 0 ==> shs[j].offset + shs[j].size <= u64::MAX) by {
            assert(lsecs[j] == lsecs[j]);
        }
        lemma_sections_end_ranges(pc, shs, x as u64);
        assert(h.shoff == lay_shoff(ident, segs, v));
        assert(h.shnum == shs.len());
    } else {
        assert(!section_table_present(h));
        assert(pc.len() == 0);
        assert(shs.len() == 0);
        lemma_sections_end_ranges(pc, shs, x as u64);
    }
}

/// Parsing the bytes `b` of an image's file layout followed by any bytes
/// `t` succeeds, and the last structure the parse finds ends where `b` ends,
/// so the bytes after it are `t`.
#[verifier::spinoff_prover]
#[verifier::rlimit(60)]
proof fn lemma_layout_then_bytes(img: ElfImage, t: Seq<u8>, parsed: ElfImage)
    requires
        image_layout_fits(img),
        file_bytes_spec(img) is Some,
    ensures
        file_layout_ok(file_bytes_spec(img)->0 + t),
        file_image_matches(file_bytes_spec(img)->0 + t, parsed) ==> {
            &&& file_image_matches(file_bytes_spec(img)->0, parsed)
            &&& structure_end(parsed) == (file_bytes_spec(img)->0).len()
            &&& trailing_of(file_bytes_spec(img)->0 + t, structure_end(parsed)) == t
        },
{
    let ident = img.ident_spec();
    let header = img.header_spec();
    let segs = segment_views(img.segments_spec());
    let v = section_views(img.sections_spec());
    let b = file_bytes_spec(img)->0;
    lemma_file_layout_round_trip(ident, header, segs, v);
    lemma_layout_windows(ident, header, segs, v);
    lemma_layout_headers(ident, header, segs, v, b);
    lemma_layout_sections_back(ident, header, segs, v, b);
    if v.len() > 0 {
        lemma_layout_names(ident, header, segs, v, b);
    }
    lemma_file_layout_extend(b, t, parsed);
    if file_image_matches(b + t, parsed) {
        lemma_layout_end(img, parsed);
        assert((b + t).skip(b.len() as int) =~= t);
    }
}

/// The trailing bytes of a file survive a rebuild and a parse: when the
/// image of `f` lays out, with fields that fit its class, the bytes
/// [`ElfFile::try_build`] gives for `f` parse, and the file
/// [`ElfFile::parse`] gives for them (the image the parse finds and the bytes
/// after its last structure, as its contract states) has the trailing bytes
/// of `f`.
pub proof fn lemma_elf_file_keeps_trailing(f: ElfFile, g: ElfFile)
    requires
        image_layout_fits(f.image_spec()),
        file_bytes_spec(f.image_spec()) is Some,
        file_image_matches(file_bytes_spec(f.image_spec())->0 + f.trailing_spec(), g.image_spec()),
        g.trailing_spec() == trailing_of(
            file_bytes_spec(f.image_spec())->0 + f.trailing_spec(),
            structure_end(g.image_spec()),
        ),
    ensures
        file_layout_ok(file_bytes_spec(f.image_spec())->0 + f.trailing_spec()),
        g.trailing_spec() == f.trailing_spec(),
{
    lemma_layout_then_bytes(f.image_spec(), f.trailing_spec(), g.image_spec());
}

/// A file in the layout that [`ElfFile::try_build`] writes survives a parse
/// and a rebuild byte for byte, trailing bytes included. Take the bytes `b`
/// of an image's file layout followed by any bytes `t`: they parse, and the
/// file [`ElfFile::parse`] gives for them (the image the parse finds and the
/// bytes after its last structure, as its contract states) keeps `t`; when
/// no `PT_NULL` segment has bytes the layout stores and no section name
/// holds a NUL character, it also lays out to `b` again, followed by `t`.
#[verifier::spinoff_prover]
#[verifier::rlimit(60)]
pub proof fn lemma_elf_file_round_trip(img: ElfImage, t: Seq<u8>, f: ElfFile)
    requires
        image_layout_fits(img),
        file_bytes_spec(img) is Some,
        file_image_matches(file_bytes_spec(img)->0 + t, f.image_spec()),
        f.trailing_spec() == trailing_of(file_bytes_spec(img)->0 + t, structure_end(f.image_spec())),
    ensures
        file_layout_ok(file_bytes_spec(img)->0 + t),
        structure_end(f.image_spec()) == (file_bytes_spec(img)->0).len(),
        f.trailing_spec() == t,
        (forall|i: int|
            0 <= i < img.segments_spec().len() && (#[trigger] img.segments_spec()[i]).header.kind.0
                == SegmentType::NULL ==> seg_writable(img.segments_spec()[i]@) == 0) && (forall|j: int|
            0 <= j < img.sections_spec().len() ==> no_nul(#[trigger] img.sections_spec()[j].name@))
            ==> file_bytes_spec(f.image_spec()) == Some(file_bytes_spec(img)->0),
{
    lemma_layout_then_bytes(img, t, f.image_spec());
    let b = file_bytes_spec(img)->0;
    if (forall|i: int|
        0 <= i < img.segments_spec().len() && (#[trigger] img.segments_spec()[i]).header.kind.0
            == SegmentType::NULL ==> seg_writable(img.segments_spec()[i]@) == 0) && (forall|j: int|
        0 <= j < img.sections_spec().len() ==> no_nul(#[trigger] img.sections_spec()[j].name@)) {
        lemma_build_parse_build(img, f.image_spec());
    }
}

} // verus!

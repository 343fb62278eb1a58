//! The ELF image container.
//!
//! [`ElfImage`] owns the parsed headers, segments, and sections of one ELF
//! object. Its submodules split the container's behavior:
//!
//! - `parse` reads the container from file or mapped layouts.
//! - `inspect` exposes addresses, image-relative offsets, and derived tables.
//! - `serialize` serializes the container to file and mapped layouts.
//! - `edit` writes bytes through image-relative offsets.
//! - `validate` checks structural invariants.

use vstd::prelude::*;

use crate::header::ElfHeader;
use crate::ident::ElfIdent;
use crate::program::{sat_add, Segment, SegmentType};
use crate::section::Section;

mod serialize;
mod validate;
mod edit;
mod inspect;
mod parse;
mod round_trip;
mod rebuild;

pub use parse::{
    alloc_cap, file_image_matches, file_image_shape, lemma_mapped_image_unique, file_layout_ok, header_image_base, mapped_image_matches,
    mapped_layout_ok, section_views, shifted, Layout, MAX_ALLOC,
};
pub use serialize::{file_bytes_of, file_bytes_spec, file_layout_error, file_layout_error_of, write_error_text, layout_sections, mapped_bytes_spec, segment_views, SectionView, SegmentView, MAX_IMAGE};
pub use round_trip::{
    image_layout_fits, lay_segments, layout_fits, layout_windows, lemma_file_layout_round_trip,
    lemma_layout_windows, lemma_parse_after_build, lemma_parse_after_layout, no_nul, phdr_fields_fit,
    same_but_range, same_but_tables, shdr_fields_fit, stored_segment_bytes,
};
pub use rebuild::{
    lay_end, lemma_build_parse_build, lemma_elf_file_keeps_trailing, lemma_elf_file_round_trip, lemma_relayout, phdr_ranges_end, sections_alike,
    segments_alike, shdr_ranges_end,
};
pub use serialize::{
    copy_loads, lemma_mapped_at_preferred_base, lemma_relocate_all_frame, lemma_relocate_entry_shifts,
    relocate_all, relocate_entry, relocation_covers, seg_writable, with_headers, wrap64,
};
pub use validate::{
    has_code, header_precedes, lemma_validate_entry, lemma_validate_overlap, lemma_validation_levels,
    lemma_validate_segment_checks, lemma_validate_string_table_index, load_headers, validation_issues,
};
pub use edit::{lemma_read_after_write, load_covers_pred, splice, write_target};
pub use inspect::{
    build_id_of, covering_segment, lemma_build_id_first, lemma_relocation_tables,
    lemma_section_named_first, lemma_segment_of_type_first, lemma_tls_fields, load_covering_segment,
    read_at_vaddr_spec, reloc_sections, relocations_spec, section_named, segment_of_type,
};

verus! {

/// A parsed ELF object with its segments and sections.
///
/// The runtime map unit is the `PT_LOAD` segment. Sections are a secondary
/// link-time view used for symbol, relocation, and note parsing.
#[derive(Debug, Clone, PartialEq, Eq)]
pub struct ElfImage {
    pub(crate) ident: ElfIdent,
    pub(crate) header: ElfHeader,
    pub(crate) segments: Vec<Segment>,
    pub(crate) sections: Vec<Section>,
    pub(crate) runtime_base: u64,
}

impl ElfImage {
    /// The identification of the image.
    pub closed spec fn ident_spec(&self) -> ElfIdent {
        self.ident
    }

    /// The file header of the image.
    pub closed spec fn header_spec(&self) -> ElfHeader {
        self.header
    }

    /// The segments of the image, in program-header order.
    pub closed spec fn segments_spec(&self) -> Seq<Segment> {
        self.segments@
    }

    /// The sections of the image, in section-header order.
    pub closed spec fn sections_spec(&self) -> Seq<Section> {
        self.sections@
    }

    /// The base address this image instance uses.
    pub closed spec fn runtime_base_spec(&self) -> u64 {
        self.runtime_base
    }

    /// Creates an image from its parts.
    pub(crate) fn from_parts(
        ident: ElfIdent,
        header: ElfHeader,
        segments: Vec<Segment>,
        sections: Vec<Section>,
        runtime_base: u64,
    ) -> (res: Self)
        ensures
            res.ident_spec() == ident,
            res.header_spec() == header,
            res.segments_spec() == segments@,
            res.sections_spec() == sections@,
            res.runtime_base_spec() == runtime_base,
    {
        ElfImage { ident, header, segments, sections, runtime_base }
    }

    /// Returns the ELF identification.
    pub fn ident(&self) -> (res: ElfIdent)
        ensures
            res == self.ident_spec(),
    {
        self.ident
    }

    /// Returns the ELF file header.
    pub fn header(&self) -> (res: &ElfHeader)
        ensures
            *res == self.header_spec(),
    {
        &self.header
    }

    /// Returns the mutable ELF file header.
    pub fn header_mut(&mut self) -> (res: &mut ElfHeader)
        ensures
            *res == old(self).header_spec(),
            final(self).header_spec() == *final(res),
            final(self).ident_spec() == old(self).ident_spec(),
            final(self).segments_spec() == old(self).segments_spec(),
            final(self).sections_spec() == old(self).sections_spec(),
            final(self).runtime_base_spec() == old(self).runtime_base_spec(),
    {
        &mut self.header
    }

    /// Returns the parsed segments in program-header order.
    pub fn segments(&self) -> (res: &[Segment])
        ensures
            res@ == self.segments_spec(),
    {
        self.segments.as_slice()
    }

    /// Returns the mutable segments in program-header order.
    pub fn segments_mut(&mut self) -> (res: &mut Vec<Segment>)
        ensures
            res@ == old(self).segments_spec(),
            final(self).segments_spec() == final(res)@,
            final(self).ident_spec() == old(self).ident_spec(),
            final(self).header_spec() == old(self).header_spec(),
            final(self).sections_spec() == old(self).sections_spec(),
            final(self).runtime_base_spec() == old(self).runtime_base_spec(),
    {
        &mut self.segments
    }

    /// Returns the parsed sections in section-header order.
    pub fn sections(&self) -> (res: &[Section])
        ensures
            res@ == self.sections_spec(),
    {
        self.sections.as_slice()
    }

    /// Returns the mutable sections in section-header order.
    pub fn sections_mut(&mut self) -> (res: &mut Vec<Section>)
        ensures
            res@ == old(self).sections_spec(),
            final(self).sections_spec() == final(res)@,
            final(self).ident_spec() == old(self).ident_spec(),
            final(self).header_spec() == old(self).header_spec(),
            final(self).segments_spec() == old(self).segments_spec(),
            final(self).runtime_base_spec() == old(self).runtime_base_spec(),
    {
        &mut self.sections
    }
}

/// The index of the first element of `s` at or after `i` that satisfies
/// `p`, or the length when none does.
pub open spec fn first_match<T>(s: Seq<T>, p: spec_fn(T) -> bool, i: int) -> int
    decreases s.len() - i,
{
    if i >= s.len() {
        s.len() as int
    } else if p(s[i]) {
        i
    } else {
        first_match(s, p, i + 1)
    }
}

/// `first_match` lies between its start and the end; no element before it
/// satisfies the predicate, and the element it names does.
pub proof fn lemma_first_match<T>(s: Seq<T>, p: spec_fn(T) -> bool, i: int)
    requires
        0 <= i <= s.len(),
    ensures
        i <= first_match(s, p, i) <= s.len(),
        forall|j: int| i <= j < first_match(s, p, i) ==> !p(#[trigger] s[j]),
        first_match(s, p, i) < s.len() ==> p(s[first_match(s, p, i)]),
    decreases s.len() - i,
{
    if i < s.len() && !p(s[i]) {
        lemma_first_match(s, p, i + 1);
    }
}

/// The geometry of an image, derived from its loadable segments.
pub open spec fn image_geometry(img: &ElfImage) -> ImageGeometry {
    geometry_spec(load_records_spec(img.segments_spec()))
}

/// The address geometry derived from the loadable segments.
#[derive(Debug, Clone, Copy, PartialEq, Eq, Structural)]
pub struct ImageGeometry {
    /// The preferred image base.
    pub base: u64,
    /// The page size used for rounding.
    pub page: u64,
    /// The mapped image size relative to the base.
    pub span: u64,
}

/// A load record: virtual address, memory size, and alignment.
pub type LoadRecord = (u64, u64, u64);

/// The page size that the load records ask for: `0x1000`, raised to the
/// largest alignment above one among records with memory bytes.
pub open spec fn geo_page(s: Seq<LoadRecord>) -> u64
    decreases s.len(),
{
    if s.len() == 0 {
        0x1000
    } else {
        let p = geo_page(s.drop_last());
        let (_, memsz, align) = s.last();
        if memsz != 0 && align > 1 && align > p {
            align
        } else {
            p
        }
    }
}

/// The lowest virtual address among load records with memory bytes.
pub open spec fn geo_min(s: Seq<LoadRecord>) -> Option<u64>
    decreases s.len(),
{
    if s.len() == 0 {
        None
    } else {
        let m = geo_min(s.drop_last());
        let (vaddr, memsz, _) = s.last();
        if memsz == 0 {
            m
        } else {
            match m {
                None => Some(vaddr),
                Some(v) => Some(if vaddr < v { vaddr } else { v }),
            }
        }
    }
}

/// The highest saturated end address among load records with memory bytes.
pub open spec fn geo_max_end(s: Seq<LoadRecord>) -> u64
    decreases s.len(),
{
    if s.len() == 0 {
        0
    } else {
        let m = geo_max_end(s.drop_last());
        let (vaddr, memsz, _) = s.last();
        let end = sat_add(vaddr, memsz);
        if memsz != 0 && end > m {
            end
        } else {
            m
        }
    }
}

/// The smallest multiple of `alignment` that is at least `value`,
/// saturating at `u64::MAX`; `value` itself when `alignment <= 1`.
pub open spec fn align_up_spec(value: u64, alignment: u64) -> u64 {
    if alignment <= 1 {
        value
    } else if value % alignment == 0 {
        value
    } else {
        sat_add(value, (alignment - value % alignment) as u64)
    }
}

/// The geometry of a list of load records.
pub open spec fn geometry_spec(s: Seq<LoadRecord>) -> ImageGeometry {
    let page = geo_page(s);
    match geo_min(s) {
        None => ImageGeometry { base: 0, page, span: 0 },
        Some(min_vaddr) => {
            let base = (min_vaddr - min_vaddr % page) as u64;
            let top = align_up_spec(geo_max_end(s), page);
            ImageGeometry { base, page, span: if top >= base { (top - base) as u64 } else { 0 } }
        },
    }
}

/// The page size of any list of load records is at least `0x1000`.
pub proof fn lemma_geo_page_min(s: Seq<LoadRecord>)
    ensures
        geo_page(s) >= 0x1000,
    decreases s.len(),
{
    if s.len() > 0 {
        lemma_geo_page_min(s.drop_last());
    }
}

/// The image base is page-aligned and at most every loadable virtual address.
pub proof fn lemma_geometry_base(s: Seq<LoadRecord>)
    ensures
        geometry_spec(s).base % geometry_spec(s).page == 0,
        geo_min(s) matches Some(m) ==> geometry_spec(s).base <= m,
{
    lemma_geo_page_min(s);
    let page = geo_page(s);
    if let Some(m) = geo_min(s) {
        let q = m as int / page as int;
        vstd::arithmetic::div_mod::lemma_fundamental_div_mod(m as int, page as int);
        vstd::arithmetic::div_mod::lemma_mod_multiples_basic(q, page as int);
        vstd::arithmetic::mul::lemma_mul_is_commutative(page as int, q);
        vstd::arithmetic::div_mod::lemma_mod_decreases(m as nat, page as nat);
        assert(geometry_spec(s).base == q * page);
    } else {
        vstd::arithmetic::div_mod::lemma_mod_multiples_basic(0, page as int);
    }
}

/// Computes the image geometry from `(vaddr, memsz, align)` load records.
pub(crate) fn geometry(loads: &Vec<LoadRecord>) -> (res: ImageGeometry)
    ensures
        res == geometry_spec(loads@),
{
    let mut page: u64 = 0x1000;
    let mut min_vaddr: Option<u64> = None;
    let mut max_end: u64 = 0;
    let mut i: usize = 0;
    while i < loads.len()
        invariant
            i <= loads@.len(),
            page == geo_page(loads@.take(i as int)),
            min_vaddr == geo_min(loads@.take(i as int)),
            max_end == geo_max_end(loads@.take(i as int)),
        decreases loads@.len() - i,
    {
        let (vaddr, memsz, align) = loads[i];
        proof {
            assert(loads@.take(i + 1).drop_last() =~= loads@.take(i as int));
        }
        if memsz != 0 {
            min_vaddr = match min_vaddr {
                None => Some(vaddr),
                Some(current) => Some(if vaddr < current { vaddr } else { current }),
            };
            let end = vaddr.saturating_add(memsz);
            if end > max_end {
                max_end = end;
            }
            if align > 1 && align > page {
                page = align;
            }
        }
        i = i + 1;
    }
    assert(loads@.take(loads@.len() as int) =~= loads@);
    proof {
        lemma_geo_page_min(loads@);
    }
    match min_vaddr {
        None => ImageGeometry { base: 0, page, span: 0 },
        Some(min_vaddr) => {
            proof {
                vstd::arithmetic::div_mod::lemma_mod_decreases(min_vaddr as nat, page as nat);
            }
            let base = min_vaddr - (min_vaddr % page);
            let span = align_up(max_end, page).saturating_sub(base);
            ImageGeometry { base, page, span }
        },
    }
}

/// Computes the smallest multiple of `alignment` that is at least `value`.
///
/// Saturates instead of overflowing when `value` sits near `u64::MAX`.
pub(crate) fn align_up(value: u64, alignment: u64) -> (res: u64)
    ensures
        res == align_up_spec(value, alignment),
{
    if alignment <= 1 {
        return value;
    }
    let remainder = value % alignment;
    if remainder == 0 {
        value
    } else {
        value.saturating_add(alignment - remainder)
    }
}

/// Rounding up gives a value at least the input; without saturation it is a
/// multiple of the alignment below the input plus the alignment.
pub proof fn lemma_align_up(value: u64, alignment: u64)
    ensures
        align_up_spec(value, alignment) >= value,
        alignment > 1 && value + alignment <= u64::MAX ==> align_up_spec(value, alignment)
            % alignment == 0 && align_up_spec(value, alignment) < value + alignment,
{
    if alignment > 1 && value + alignment <= u64::MAX {
        let r = value % alignment;
        vstd::arithmetic::div_mod::lemma_fundamental_div_mod(value as int, alignment as int);
        if r != 0 {
            let q = value as int / alignment as int;
            assert(value + (alignment - r) == (q + 1) * alignment) by (nonlinear_arith)
                requires
                    value == alignment * q + r,
            ;
            vstd::arithmetic::div_mod::lemma_mod_multiples_basic(q + 1, alignment as int);
        }
    }
}

/// The load records of the `PT_LOAD` segments, in order.
pub open spec fn load_records_spec(segs: Seq<Segment>) -> Seq<LoadRecord>
    decreases segs.len(),
{
    if segs.len() == 0 {
        Seq::empty()
    } else {
        let rest = load_records_spec(segs.drop_last());
        let h = segs.last().header;
        if h.kind.0 == SegmentType::LOAD {
            rest.push((h.vaddr, h.memsz, h.align))
        } else {
            rest
        }
    }
}

/// The load records of a list of segments.
pub(crate) fn load_records(segments: &Vec<Segment>) -> (res: Vec<LoadRecord>)
    ensures
        res@ == load_records_spec(segments@),
{
    let mut out: Vec<LoadRecord> = Vec::new();
    let mut i: usize = 0;
    while i < segments.len()
        invariant
            i <= segments@.len(),
            out@ == load_records_spec(segments@.take(i as int)),
        decreases segments@.len() - i,
    {
        proof {
            assert(segments@.take(i + 1).drop_last() =~= segments@.take(i as int));
        }
        let h = segments[i].header;
        if h.kind.0 == SegmentType::LOAD {
            out.push((h.vaddr, h.memsz, h.align));
        }
        i = i + 1;
    }
    assert(segments@.take(segments@.len() as int) =~= segments@);
    out
}

/// Whether a segment is a `PT_LOAD` segment (type 1) that maps memory.
pub open spec fn maps_memory(s: Segment) -> bool {
    s.header.kind.0 == 1 && s.header.memsz != 0
}

/// The smallest start, the largest saturated end and the page size of the
/// load records, each stated over the `PT_LOAD` segments that map memory.
proof fn lemma_geo_segments(segs: Seq<Segment>)
    ensures
        geo_min(load_records_spec(segs)) is None <==> forall|i: int|
            0 <= i < segs.len() ==> !maps_memory(#[trigger] segs[i]),
        geo_min(load_records_spec(segs)) matches Some(m) ==> (forall|i: int|
            0 <= i < segs.len() && maps_memory(#[trigger] segs[i]) ==> m <= segs[i].header.vaddr)
            && exists|i: int|
            0 <= i < segs.len() && maps_memory(#[trigger] segs[i]) && segs[i].header.vaddr == m,
        forall|i: int|
            0 <= i < segs.len() && maps_memory(#[trigger] segs[i]) ==> geo_max_end(
                load_records_spec(segs),
            ) >= sat_add(segs[i].header.vaddr, segs[i].header.memsz),
        forall|i: int|
            0 <= i < segs.len() && maps_memory(#[trigger] segs[i]) && segs[i].header.align > 1
                ==> geo_page(load_records_spec(segs)) >= segs[i].header.align,
        geo_page(load_records_spec(segs)) == 0x1000 || exists|i: int|
            0 <= i < segs.len() && maps_memory(#[trigger] segs[i]) && segs[i].header.align
                == geo_page(load_records_spec(segs)),
    decreases segs.len(),
{
    if segs.len() > 0 {
        let d = segs.drop_last();
        lemma_geo_segments(d);
        let rs = load_records_spec(segs);
        let rd = load_records_spec(d);
        let n = segs.len() - 1;
        let h = segs[n].header;
        assert(segs[n] == segs.last());
        assert forall|i: int| 0 <= i < d.len() implies #[trigger] segs[i] == d[i] by {}
        if h.kind.0 == SegmentType::LOAD {
            assert(rs == rd.push((h.vaddr, h.memsz, h.align)));
            assert(rs.drop_last() =~= rd);
            assert(rs.last() == (h.vaddr, h.memsz, h.align));
        } else {
            assert(rs == rd);
        }
        if geo_min(rd) is None && !maps_memory(segs[n]) {
            assert forall|i: int| 0 <= i < segs.len() implies !maps_memory(#[trigger] segs[i]) by {
                if i < n {
                    assert(segs[i] == d[i]);
                }
            }
        }
        if geo_min(rd) is Some {
            let m = geo_min(rd)->0;
            let i = choose|i: int|
                0 <= i < d.len() && maps_memory(#[trigger] d[i]) && d[i].header.vaddr == m;
            assert(segs[i] == d[i]);
        }
        if geo_min(rs) is Some {
            let m = geo_min(rs)->0;
            assert forall|i: int| 0 <= i < segs.len() && maps_memory(#[trigger] segs[i]) implies m
                <= segs[i].header.vaddr by {
                if i < n {
                    assert(segs[i] == d[i]);
                }
            }
            if maps_memory(segs[n]) && m == h.vaddr {
                assert(maps_memory(segs[n]) && segs[n].header.vaddr == m);
            } else {
                let i = choose|i: int|
                    0 <= i < d.len() && maps_memory(#[trigger] d[i]) && d[i].header.vaddr == m;
                assert(segs[i] == d[i]);
            }
        }
        assert forall|i: int| 0 <= i < segs.len() && maps_memory(#[trigger] segs[i]) implies geo_max_end(
            rs,
        ) >= sat_add(segs[i].header.vaddr, segs[i].header.memsz) by {
            if i < n {
                assert(segs[i] == d[i]);
            }
        }
        assert forall|i: int|
            0 <= i < segs.len() && maps_memory(#[trigger] segs[i]) && segs[i].header.align
                > 1 implies geo_page(rs) >= segs[i].header.align by {
            if i < n {
                assert(segs[i] == d[i]);
            }
        }
        if geo_page(rs) != 0x1000 {
            if maps_memory(segs[n]) && h.align == geo_page(rs) {
                assert(maps_memory(segs[n]) && segs[n].header.align == geo_page(rs));
            } else {
                let i = choose|i: int|
                    0 <= i < d.len() && maps_memory(#[trigger] d[i]) && d[i].header.align
                        == geo_page(rd);
                assert(segs[i] == d[i]);
            }
        }
    }
}

/// The page size is `0x1000`, raised to the largest alignment among the
/// `PT_LOAD` segments that map memory.
proof fn lemma_geometry_page(img: ElfImage)
    ensures
        image_geometry(&img).page >= 0x1000,
        forall|i: int|
            0 <= i < img.segments_spec().len() && maps_memory(#[trigger] img.segments_spec()[i])
                && img.segments_spec()[i].header.align > 1 ==> image_geometry(&img).page
                >= img.segments_spec()[i].header.align,
        image_geometry(&img).page == 0x1000 || exists|i: int|
            0 <= i < img.segments_spec().len() && maps_memory(#[trigger] img.segments_spec()[i])
                && img.segments_spec()[i].header.align == image_geometry(&img).page,
{
    lemma_geo_segments(img.segments_spec());
    lemma_geo_page_min(load_records_spec(img.segments_spec()));
}

/// The base lies at or below, and the span reaches to at least the end of,
/// each `PT_LOAD` segment that maps memory; with none, both are zero.
proof fn lemma_geometry_bounds(img: ElfImage)
    ensures
        (forall|i: int|
            0 <= i < img.segments_spec().len() ==> !maps_memory(#[trigger] img.segments_spec()[i]))
            ==> image_geometry(&img).base == 0 && image_geometry(&img).span == 0,
        forall|i: int|
            0 <= i < img.segments_spec().len() && maps_memory(#[trigger] img.segments_spec()[i])
                ==> image_geometry(&img).base <= img.segments_spec()[i].header.vaddr
                && image_geometry(&img).base + image_geometry(&img).span >= sat_add(
                img.segments_spec()[i].header.vaddr,
                img.segments_spec()[i].header.memsz,
            ),
{
    let segs = img.segments_spec();
    let s = load_records_spec(segs);
    let g = image_geometry(&img);
    lemma_geo_segments(segs);
    lemma_geo_page_min(s);
    lemma_geometry_base(s);
    let page = geo_page(s);
    lemma_align_up(geo_max_end(s), page);
    assert forall|i: int| 0 <= i < segs.len() && maps_memory(#[trigger] segs[i]) implies g.base
        <= segs[i].header.vaddr && g.base + g.span >= sat_add(
        segs[i].header.vaddr,
        segs[i].header.memsz,
    ) by {
        let m = geo_min(s)->0;
        assert(m <= segs[i].header.vaddr);
    }
}

/// With a `PT_LOAD` segment that maps memory, the base is a multiple of the
/// page size less than one page below the lowest such segment.
proof fn lemma_geometry_base_tight(img: ElfImage)
    ensures
        (exists|i: int|
            0 <= i < img.segments_spec().len() && maps_memory(#[trigger] img.segments_spec()[i]))
            ==> image_geometry(&img).base % image_geometry(&img).page == 0 && exists|i: int|
            0 <= i < img.segments_spec().len() && maps_memory(#[trigger] img.segments_spec()[i])
                && img.segments_spec()[i].header.vaddr < image_geometry(&img).base
                + image_geometry(&img).page,
{
    let segs = img.segments_spec();
    let s = load_records_spec(segs);
    let g = image_geometry(&img);
    lemma_geo_segments(segs);
    lemma_geo_page_min(s);
    lemma_geometry_base(s);
    let page = geo_page(s);
    if exists|i: int| 0 <= i < segs.len() && maps_memory(#[trigger] segs[i]) {
        let m = geo_min(s)->0;
        let i = choose|i: int|
            0 <= i < segs.len() && maps_memory(#[trigger] segs[i]) && segs[i].header.vaddr == m;
        assert(m % page < page);
        assert(segs[i].header.vaddr < g.base + g.page);
    }
}

/// The image geometry, stated over the `PT_LOAD` segments that map memory.
/// The page size is `0x1000`, raised to the largest alignment among them.
/// The preferred base is the lowest of their addresses rounded down to a
/// multiple of the page size, and the span reaches from the base to at least
/// the end of each of them. With none of them, base and span are zero.
pub proof fn lemma_image_geometry(img: ElfImage)
    ensures
        image_geometry(&img).page >= 0x1000,
        forall|i: int|
            0 <= i < img.segments_spec().len() && maps_memory(#[trigger] img.segments_spec()[i])
                && img.segments_spec()[i].header.align > 1 ==> image_geometry(&img).page
                >= img.segments_spec()[i].header.align,
        image_geometry(&img).page == 0x1000 || exists|i: int|
            0 <= i < img.segments_spec().len() && maps_memory(#[trigger] img.segments_spec()[i])
                && img.segments_spec()[i].header.align == image_geometry(&img).page,
        (forall|i: int|
            0 <= i < img.segments_spec().len() ==> !maps_memory(#[trigger] img.segments_spec()[i]))
            ==> image_geometry(&img).base == 0 && image_geometry(&img).span == 0,
        forall|i: int|
            0 <= i < img.segments_spec().len() && maps_memory(#[trigger] img.segments_spec()[i])
                ==> image_geometry(&img).base <= img.segments_spec()[i].header.vaddr
                && image_geometry(&img).base + image_geometry(&img).span >= sat_add(
                img.segments_spec()[i].header.vaddr,
                img.segments_spec()[i].header.memsz,
            ),
        (exists|i: int|
            0 <= i < img.segments_spec().len() && maps_memory(#[trigger] img.segments_spec()[i]))
            ==> image_geometry(&img).base % image_geometry(&img).page == 0 && exists|i: int|
            0 <= i < img.segments_spec().len() && maps_memory(#[trigger] img.segments_spec()[i])
                && img.segments_spec()[i].header.vaddr < image_geometry(&img).base
                + image_geometry(&img).page,
{
    lemma_geometry_page(img);
    lemma_geometry_bounds(img);
    lemma_geometry_base_tight(img);
}

/// An image holds at most `usize::MAX` segments.
pub(crate) proof fn lemma_segment_count(img: &ElfImage)
    ensures
        img.segments_spec().len() <= usize::MAX,
{
    assert(img.segments.len() == img.segments@.len());
}

} // verus!

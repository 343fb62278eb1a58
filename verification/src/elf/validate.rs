//! Structural validation of an [`ElfImage`].

use vstd::prelude::*;

use crate::program::{sat_add, ProgramHeader, Segment, SegmentType};
use crate::section::SectionType;
use crate::validation::{
    issues_view, IssueModel, ValidationCode, ValidationIssue, ValidationLevel, ValidationResult,
};

use crate::text::{dec_text, format_dec, format_hex, hex_text, join};

use super::{first_match, image_geometry, lemma_first_match, ElfImage};

verus! {

/// The memory range of a loadable segment: start, saturated end, and its
/// index among the loadable segments.
pub type LoadRange = (u64, u64, usize);

/// The lexicographic order of load ranges.
pub open spec fn range_lt(a: LoadRange, b: LoadRange) -> bool {
    a.0 < b.0 || (a.0 == b.0 && (a.1 < b.1 || (a.1 == b.1 && a.2 < b.2)))
}

/// The predicate of ranges that come after `x`.
pub open spec fn after_pred(x: LoadRange) -> spec_fn(LoadRange) -> bool {
    |y: LoadRange| range_lt(x, y)
}

/// `s` with `x` inserted before the first range that comes after it.
pub open spec fn insert_sorted(s: Seq<LoadRange>, x: LoadRange) -> Seq<LoadRange> {
    let j = first_match(s, after_pred(x), 0);
    s.take(j).push(x) + s.skip(j)
}

/// The ranges in ascending lexicographic order.
pub open spec fn sort_ranges(r: Seq<LoadRange>) -> Seq<LoadRange>
    decreases r.len(),
{
    if r.len() == 0 {
        Seq::empty()
    } else {
        insert_sorted(sort_ranges(r.drop_last()), r.last())
    }
}

/// The headers of the loadable segments, in order.
pub open spec fn load_headers(segs: Seq<Segment>) -> Seq<ProgramHeader>
    decreases segs.len(),
{
    if segs.len() == 0 {
        Seq::empty()
    } else {
        let rest = load_headers(segs.drop_last());
        if segs.last().header.kind.0 == SegmentType::LOAD {
            rest.push(segs.last().header)
        } else {
            rest
        }
    }
}

/// The memory ranges of the loadable segments.
pub open spec fn ranges_of(hs: Seq<ProgramHeader>) -> Seq<LoadRange> {
    Seq::new(hs.len(), |i: int| (hs[i].vaddr, sat_add(hs[i].vaddr, hs[i].memsz), i as usize))
}

/// The context that names one loadable segment.
pub open spec fn segment_text(index: nat) -> Seq<char> {
    "segment "@ + dec_text(index)
}

/// The context that names two loadable segments.
pub open spec fn segment_pair_text(a: nat, b: nat) -> Seq<char> {
    "segments "@ + dec_text(a) + " and "@ + dec_text(b)
}

/// Formats the context that names one loadable segment.
fn format_segment(index: usize) -> (res: String)
    ensures
        res@ == segment_text(index as nat),
{
    let digits = format_dec(index as u64);
    join("segment ", digits.as_str())
}

/// Formats the context that names two loadable segments.
fn format_segment_pair(first: usize, second: usize) -> (res: String)
    ensures
        res@ == segment_pair_text(first as nat, second as nat),
{
    let a = format_dec(first as u64);
    let b = format_dec(second as u64);
    let head = join("segments ", a.as_str());
    let middle = join(head.as_str(), " and ");
    join(middle.as_str(), b.as_str())
}

/// The overlap findings among the first `n` neighbouring pairs of sorted
/// ranges.
pub open spec fn overlap_issues(sorted: Seq<LoadRange>, n: int) -> Seq<IssueModel>
    decreases n,
{
    if n <= 0 {
        Seq::empty()
    } else {
        let rest = overlap_issues(sorted, n - 1);
        let a = sorted[n - 1];
        let b = sorted[n];
        if a.1 > b.0 {
            rest.push(
                (
                    ValidationLevel::Error,
                    ValidationCode::OverlappingSegments,
                    "two loadable segments overlap in memory"@,
                    Some(segment_pair_text(a.2 as nat, b.2 as nat)),
                ),
            )
        } else {
            rest
        }
    }
}

/// Whether a segment's file offset disagrees with its address modulo its
/// alignment while it has file bytes.
pub open spec fn misaligned(h: ProgramHeader) -> bool {
    h.align > 1 && h.offset % h.align != h.vaddr % h.align && h.filesz > 0
}

/// The per-segment findings for the first `n` loadable segments.
pub open spec fn segment_issues(hs: Seq<ProgramHeader>, n: int) -> Seq<IssueModel>
    decreases n,
{
    if n <= 0 {
        Seq::empty()
    } else {
        let rest = segment_issues(hs, n - 1);
        let h = hs[n - 1];
        let ctx = Some(segment_text((n - 1) as nat));
        let with_size = if h.filesz > h.memsz {
            rest.push(
                (
                    ValidationLevel::Error,
                    ValidationCode::SegmentFileRangeOutOfBounds,
                    "a segment declares more file bytes than memory bytes"@,
                    ctx,
                ),
            )
        } else {
            rest
        };
        if misaligned(h) {
            with_size.push(
                (
                    ValidationLevel::Warning,
                    ValidationCode::SegmentVaddrMisaligned,
                    "a segment file offset is not congruent with its virtual address"@,
                    ctx,
                ),
            )
        } else {
            with_size
        }
    }
}

/// Whether a nonzero entry point lies outside the mapped image.
pub open spec fn entry_outside(img: ElfImage) -> bool {
    let g = image_geometry(&img);
    let entry = img.header_spec().entry;
    entry != 0 && (g.base + g.span > u64::MAX || entry < g.base || entry >= g.base + g.span)
}

/// Whether the header declares sections but its section-name string table
/// index names no string table.
pub open spec fn bad_shstrndx(img: ElfImage) -> bool {
    let h = img.header_spec();
    let secs = img.sections_spec();
    h.shnum != 0 && !(h.shstrndx < secs.len() && secs[h.shstrndx as int].header.kind.0
        == SectionType::STRTAB)
}

/// The findings of [`ElfImage::validate`], in check order: a missing
/// loadable segment, an entry point outside the image, overlapping loadable
/// segments (by ascending range), per-segment size and congruence problems,
/// and a string table index that names no string table.
pub open spec fn validation_issues(img: ElfImage) -> Seq<IssueModel> {
    let hs = load_headers(img.segments_spec());
    let sorted = sort_ranges(ranges_of(hs));
    let no_load = if hs.len() == 0 {
        seq![
            (
                ValidationLevel::Warning,
                ValidationCode::NoLoadSegments,
                "the object declares no loadable segment"@,
                None::<Seq<char>>,
            ),
        ]
    } else {
        Seq::empty()
    };
    let entry = if entry_outside(img) {
        seq![
            (
                ValidationLevel::Warning,
                ValidationCode::EntryPointOutOfImage,
                "the entry point lies outside the mapped image"@,
                Some(hex_text(img.header_spec().entry as nat)),
            ),
        ]
    } else {
        Seq::empty()
    };
    let pairs = if sorted.len() == 0 {
        0
    } else {
        sorted.len() - 1
    };
    let strtab = if bad_shstrndx(img) {
        seq![
            (
                ValidationLevel::Warning,
                ValidationCode::InvalidStringTableIndex,
                "the section-name string table index names no string table"@,
                None::<Seq<char>>,
            ),
        ]
    } else {
        Seq::empty()
    };
    no_load + entry + overlap_issues(sorted, pairs) + segment_issues(hs, hs.len() as int) + strtab
}

/// Appending an issue appends its model.
proof fn lemma_issues_view_push(s: Seq<ValidationIssue>, x: ValidationIssue)
    ensures
        issues_view(s.push(x)) == issues_view(s).push(x@),
{
    assert(issues_view(s.push(x)) =~= issues_view(s).push(x@));
}

/// Sorts load ranges in ascending lexicographic order.
fn sort_load_ranges(ranges: &Vec<LoadRange>) -> (res: Vec<LoadRange>)
    ensures
        res@ == sort_ranges(ranges@),
{
    let mut sorted: Vec<LoadRange> = Vec::new();
    let mut i: usize = 0;
    while i < ranges.len()
        invariant
            i <= ranges@.len(),
            sorted@ == sort_ranges(ranges@.take(i as int)),
        decreases ranges@.len() - i,
    {
        proof {
            assert(ranges@.take(i + 1).drop_last() =~= ranges@.take(i as int));
        }
        let x = ranges[i];
        let ghost p = after_pred(x);
        let mut j: usize = 0;
        while j < sorted.len() && !(x.0 < sorted[j].0 || (x.0 == sorted[j].0 && (x.1 < sorted[j].1
            || (x.1 == sorted[j].1 && x.2 < sorted[j].2))))
            invariant
                j <= sorted@.len(),
                p == after_pred(x),
                first_match(sorted@, p, 0) == first_match(sorted@, p, j as int),
            decreases sorted@.len() - j,
        {
            j = j + 1;
        }
        proof {
            super::lemma_first_match(sorted@, p, j as int);
        }
        let ghost before = sorted@;
        sorted.insert(j, x);
        assert(sorted@ =~= insert_sorted(before, x));
        i = i + 1;
    }
    assert(ranges@.take(ranges@.len() as int) =~= ranges@);
    sorted
}

impl ElfImage {
    /// Checks the structural invariants of the current model.
    ///
    /// Parsing already rejects unreadable structures. This method reports the
    /// suspicious or invalid states that a parsed or edited model can still
    /// hold, such as overlapping loadable segments or an entry point outside
    /// the mapped image.
    pub fn validate(&self) -> (res: ValidationResult)
        ensures
            issues_view(res.issues@) == validation_issues(*self),
    {
        let ghost segs = self.segments@;
        let mut issues: Vec<ValidationIssue> = Vec::new();
        let base = self.image_base();
        let span = self.image_span();

        let mut loads: Vec<ProgramHeader> = Vec::new();
        let mut i: usize = 0;
        while i < self.segments.len()
            invariant
                i <= segs.len(),
                segs == self.segments@,
                loads@ == load_headers(segs.take(i as int)),
            decreases segs.len() - i,
        {
            proof {
                assert(segs.take(i + 1).drop_last() =~= segs.take(i as int));
            }
            if self.segments[i].header.kind.0 == SegmentType::LOAD {
                loads.push(self.segments[i].header);
            }
            i = i + 1;
        }
        assert(segs.take(segs.len() as int) =~= segs);
        let ghost hs = loads@;

        if loads.len() == 0 {
            let issue = ValidationIssue::warning(
                ValidationCode::NoLoadSegments,
                "the object declares no loadable segment",
            );
            issues.push(issue);
            proof {
                lemma_issues_view_push(Seq::empty(), issue);
            }
        }
        let ghost part1 = issues_view(issues@);

        if self.header.entry != 0 {
            let entry = self.header.entry;
            let outside = match base.checked_add(span) {
                Some(image_end) => entry < base || entry >= image_end,
                None => true,
            };
            if outside {
                let ghost before = issues@;
                let issue = ValidationIssue::warning(
                    ValidationCode::EntryPointOutOfImage,
                    "the entry point lies outside the mapped image",
                ).with_context(format_hex(entry));
                issues.push(issue);
                proof {
                    lemma_issues_view_push(before, issue);
                }
            }
        }
        let ghost part2 = issues_view(issues@);

        let mut ranges: Vec<LoadRange> = Vec::new();
        let mut k: usize = 0;
        while k < loads.len()
            invariant
                k <= hs.len(),
                hs == loads@,
                ranges@ == ranges_of(hs).take(k as int),
            decreases hs.len() - k,
        {
            let h = loads[k];
            ranges.push((h.vaddr, h.vaddr.saturating_add(h.memsz), k));
            assert(ranges@ =~= ranges_of(hs).take(k + 1));
            k = k + 1;
        }
        assert(ranges@ =~= ranges_of(hs));
        let sorted = sort_load_ranges(&ranges);
        let ghost srt = sorted@;
        let pairs: usize = if sorted.len() == 0 {
            0
        } else {
            sorted.len() - 1
        };
        let mut p: usize = 0;
        while p < pairs
            invariant
                p <= pairs,
                pairs < sorted@.len() || pairs == 0,
                srt == sorted@,
                issues_view(issues@) == part2 + overlap_issues(srt, p as int),
            decreases pairs - p,
        {
            let (_, first_end, first_index) = sorted[p];
            let (second_start, _, second_index) = sorted[p + 1];
            let ghost before = issues@;
            if first_end > second_start {
                let issue = ValidationIssue::error(
                    ValidationCode::OverlappingSegments,
                    "two loadable segments overlap in memory",
                ).with_context(format_segment_pair(first_index, second_index));
                issues.push(issue);
                proof {
                    lemma_issues_view_push(before, issue);
                }
            }
            assert(issues_view(issues@) =~= part2 + overlap_issues(srt, p + 1));
            p = p + 1;
        }
        let ghost part3 = issues_view(issues@);

        let mut q: usize = 0;
        while q < loads.len()
            invariant
                q <= hs.len(),
                hs == loads@,
                issues_view(issues@) == part3 + segment_issues(hs, q as int),
            decreases hs.len() - q,
        {
            let header = loads[q];
            let ghost before = issues@;
            if header.filesz > header.memsz {
                let issue = ValidationIssue::error(
                    ValidationCode::SegmentFileRangeOutOfBounds,
                    "a segment declares more file bytes than memory bytes",
                ).with_context(format_segment(q));
                issues.push(issue);
                proof {
                    lemma_issues_view_push(before, issue);
                }
            }
            let ghost middle = issues@;
            let alignment = header.align;
            if alignment > 1 && header.offset % alignment != header.vaddr % alignment
                && header.filesz > 0 {
                let issue = ValidationIssue::warning(
                    ValidationCode::SegmentVaddrMisaligned,
                    "a segment file offset is not congruent with its virtual address",
                ).with_context(format_segment(q));
                issues.push(issue);
                proof {
                    lemma_issues_view_push(middle, issue);
                }
            }
            assert(issues_view(issues@) =~= part3 + segment_issues(hs, q + 1));
            q = q + 1;
        }
        let ghost part4 = issues_view(issues@);

        if self.header.shnum != 0 {
            let index = self.header.shstrndx as usize;
            let valid = index < self.sections.len() && self.sections[index].header.kind.0
                == SectionType::STRTAB;
            if !valid {
                let ghost before = issues@;
                let issue = ValidationIssue::warning(
                    ValidationCode::InvalidStringTableIndex,
                    "the section-name string table index names no string table",
                );
                issues.push(issue);
                proof {
                    lemma_issues_view_push(before, issue);
                }
            }
        }
        assert(issues_view(issues@) =~= validation_issues(*self));
        ValidationResult::new(issues)
    }
}

/// No overlap finding reports a string table index.
proof fn lemma_overlap_issue_codes(sorted: Seq<LoadRange>, n: int)
    ensures
        forall|j: int|
            0 <= j < overlap_issues(sorted, n).len() ==> (#[trigger] overlap_issues(sorted, n)[j]).1
                == ValidationCode::OverlappingSegments,
    decreases n,
{
    if n > 0 {
        lemma_overlap_issue_codes(sorted, n - 1);
    }
}

/// No per-segment finding reports a string table index.
proof fn lemma_segment_issue_codes(hs: Seq<ProgramHeader>, n: int)
    ensures
        forall|j: int|
            0 <= j < segment_issues(hs, n).len() ==> (#[trigger] segment_issues(hs, n)[j]).1
                == ValidationCode::SegmentFileRangeOutOfBounds || segment_issues(hs, n)[j].1
                == ValidationCode::SegmentVaddrMisaligned,
    decreases n,
{
    if n > 0 {
        lemma_segment_issue_codes(hs, n - 1);
    }
}

/// Validation reports an invalid section-name string table index exactly
/// when the header declares sections (`e_shnum != 0`) and `e_shstrndx` does
/// not name a section whose type is `SHT_STRTAB`: an index past the section
/// list, or one naming a section of any other type. The report is a warning
/// that stands last among the findings.
pub proof fn lemma_validate_string_table_index(img: ElfImage)
    ensures
        ({
            let h = img.header_spec();
            let secs = img.sections_spec();
            let issues = validation_issues(img);
            let invalid = h.shnum != 0 && (h.shstrndx >= secs.len()
                || secs[h.shstrndx as int].header.kind.0 != SectionType::STRTAB);
            &&& (exists|j: int|
                0 <= j < issues.len() && (#[trigger] issues[j]).1
                    == ValidationCode::InvalidStringTableIndex) <==> invalid
            &&& invalid ==> issues.last() == (
                ValidationLevel::Warning,
                ValidationCode::InvalidStringTableIndex,
                "the section-name string table index names no string table"@,
                None::<Seq<char>>,
            )
        }),
{
    let hs = load_headers(img.segments_spec());
    let sorted = sort_ranges(ranges_of(hs));
    let pairs = if sorted.len() == 0 {
        0
    } else {
        sorted.len() - 1
    };
    let issues = validation_issues(img);
    let ov = overlap_issues(sorted, pairs);
    let sg = segment_issues(hs, hs.len() as int);
    lemma_overlap_issue_codes(sorted, pairs);
    lemma_segment_issue_codes(hs, hs.len() as int);
    let head_len = issues.len() - if bad_shstrndx(img) {
        1int
    } else {
        0int
    };
    assert forall|j: int| 0 <= j < head_len implies (#[trigger] issues[j]).1
        != ValidationCode::InvalidStringTableIndex by {
        let a = if hs.len() == 0 {
            1int
        } else {
            0int
        };
        let b = if entry_outside(img) {
            1int
        } else {
            0int
        };
        if j >= a + b && j < a + b + ov.len() {
            assert(issues[j] == ov[j - a - b]);
        } else if j >= a + b + ov.len() {
            assert(issues[j] == sg[j - a - b - ov.len()]);
        }
    }
    if bad_shstrndx(img) {
        assert(issues[head_len] == issues.last());
    }
}

/// Whether an issue with check `code` is among `issues`.
pub open spec fn has_code(issues: Seq<IssueModel>, code: ValidationCode) -> bool {
    exists|j: int| 0 <= j < issues.len() && (#[trigger] issues[j]).1 == code
}

/// An issue with a given check is in a concatenation exactly when it is in
/// one of the parts.
proof fn lemma_has_code_concat(a: Seq<IssueModel>, b: Seq<IssueModel>, code: ValidationCode)
    ensures
        has_code(a + b, code) <==> has_code(a, code) || has_code(b, code),
{
    if has_code(a + b, code) {
        let j = choose|j: int| 0 <= j < (a + b).len() && (#[trigger] (a + b)[j]).1 == code;
        if j < a.len() {
            assert(a[j] == (a + b)[j]);
        } else {
            assert(b[j - a.len()] == (a + b)[j]);
        }
    }
    if has_code(a, code) {
        let j = choose|j: int| 0 <= j < a.len() && (#[trigger] a[j]).1 == code;
        assert((a + b)[j] == a[j]);
    }
    if has_code(b, code) {
        let j = choose|j: int| 0 <= j < b.len() && (#[trigger] b[j]).1 == code;
        assert((a + b)[a.len() + j] == b[j]);
    }
}

/// The loadable headers are the headers of the `PT_LOAD` segments: each
/// comes from one, and each one's header is among them.
proof fn lemma_load_headers_members(segs: Seq<Segment>)
    ensures
        load_headers(segs).len() == 0 <==> forall|i: int|
            0 <= i < segs.len() ==> (#[trigger] segs[i]).header.kind.0 != SegmentType::LOAD,
        forall|k: int|
            0 <= k < load_headers(segs).len() ==> exists|i: int|
                0 <= i < segs.len() && (#[trigger] segs[i]).header.kind.0 == SegmentType::LOAD
                    && segs[i].header == #[trigger] load_headers(segs)[k],
        forall|i: int|
            0 <= i < segs.len() && (#[trigger] segs[i]).header.kind.0 == SegmentType::LOAD
                ==> exists|k: int|
                0 <= k < load_headers(segs).len() && #[trigger] load_headers(segs)[k]
                    == segs[i].header,
    decreases segs.len(),
{
    if segs.len() > 0 {
        let d = segs.drop_last();
        lemma_load_headers_members(d);
        let hs = load_headers(segs);
        let hd = load_headers(d);
        let n = segs.len() - 1;
        assert(segs[n] == segs.last());
        assert forall|k: int| 0 <= k < hs.len() implies exists|i: int|
            0 <= i < segs.len() && (#[trigger] segs[i]).header.kind.0 == SegmentType::LOAD
                && segs[i].header == #[trigger] hs[k] by {
            if k < hd.len() {
                assert(hs[k] == hd[k]);
                let i = choose|i: int|
                    0 <= i < d.len() && (#[trigger] d[i]).header.kind.0 == SegmentType::LOAD
                        && d[i].header == hd[k];
                assert(segs[i] == d[i]);
            }
        }
        assert forall|i: int|
            0 <= i < segs.len() && (#[trigger] segs[i]).header.kind.0
                == SegmentType::LOAD implies exists|k: int|
            0 <= k < hs.len() && #[trigger] hs[k] == segs[i].header by {
            if i < d.len() {
                assert(segs[i] == d[i]);
                let k = choose|k: int| 0 <= k < hd.len() && #[trigger] hd[k] == d[i].header;
                assert(hs[k] == hd[k]);
            } else {
                assert(hs[hd.len() as int] == segs[i].header);
            }
        }
        if hs.len() == 0 {
            assert forall|i: int| 0 <= i < segs.len() implies (#[trigger] segs[i]).header.kind.0
                != SegmentType::LOAD by {
                if i < d.len() {
                    assert(segs[i] == d[i]);
                }
            }
        }
    }
}

/// The per-segment findings report a size problem exactly for a header
/// with more file than memory bytes, and a congruence problem exactly for
/// a misaligned one.
proof fn lemma_segment_issue_presence(hs: Seq<ProgramHeader>, n: int)
    requires
        0 <= n <= hs.len(),
    ensures
        has_code(segment_issues(hs, n), ValidationCode::SegmentFileRangeOutOfBounds) <==> exists|
            k: int,
        | 0 <= k < n && (#[trigger] hs[k]).filesz > hs[k].memsz,
        has_code(segment_issues(hs, n), ValidationCode::SegmentVaddrMisaligned) <==> exists|k: int|
            0 <= k < n && misaligned(#[trigger] hs[k]),
    decreases n,
{
    if n > 0 {
        lemma_segment_issue_presence(hs, n - 1);
        let rest = segment_issues(hs, n - 1);
        let h = hs[n - 1];
        let ctx = Some(segment_text((n - 1) as nat));
        let big = (
            ValidationLevel::Error,
            ValidationCode::SegmentFileRangeOutOfBounds,
            "a segment declares more file bytes than memory bytes"@,
            ctx,
        );
        let mis = (
            ValidationLevel::Warning,
            ValidationCode::SegmentVaddrMisaligned,
            "a segment file offset is not congruent with its virtual address"@,
            ctx,
        );
        let with_size = if h.filesz > h.memsz {
            rest.push(big)
        } else {
            rest
        };
        let all = segment_issues(hs, n);
        assert(all == if misaligned(h) {
            with_size.push(mis)
        } else {
            with_size
        });
        let tail = if h.filesz > h.memsz {
            seq![big]
        } else {
            Seq::<IssueModel>::empty()
        };
        let tail2 = if misaligned(h) {
            seq![mis]
        } else {
            Seq::<IssueModel>::empty()
        };
        assert(all =~= rest + tail + tail2);
        lemma_has_code_concat(rest + tail, tail2, ValidationCode::SegmentFileRangeOutOfBounds);
        lemma_has_code_concat(rest, tail, ValidationCode::SegmentFileRangeOutOfBounds);
        lemma_has_code_concat(rest + tail, tail2, ValidationCode::SegmentVaddrMisaligned);
        lemma_has_code_concat(rest, tail, ValidationCode::SegmentVaddrMisaligned);
        if h.filesz > h.memsz {
            assert(tail[0].1 == ValidationCode::SegmentFileRangeOutOfBounds);
        }
        if misaligned(h) {
            assert(tail2[0].1 == ValidationCode::SegmentVaddrMisaligned);
        }
        if exists|k: int| 0 <= k < n && (#[trigger] hs[k]).filesz > hs[k].memsz {
            let k = choose|k: int| 0 <= k < n && (#[trigger] hs[k]).filesz > hs[k].memsz;
            if k < n - 1 {
                assert(has_code(rest, ValidationCode::SegmentFileRangeOutOfBounds));
            }
        }
        if exists|k: int| 0 <= k < n && misaligned(#[trigger] hs[k]) {
            let k = choose|k: int| 0 <= k < n && misaligned(#[trigger] hs[k]);
            if k < n - 1 {
                assert(has_code(rest, ValidationCode::SegmentVaddrMisaligned));
            }
        }
        if has_code(tail, ValidationCode::SegmentVaddrMisaligned) {
            let j = choose|j: int| 0 <= j < tail.len() && (#[trigger] tail[j]).1
                == ValidationCode::SegmentVaddrMisaligned;
            assert(tail[j] == big);
        }
        if has_code(tail2, ValidationCode::SegmentFileRangeOutOfBounds) {
            let j = choose|j: int| 0 <= j < tail2.len() && (#[trigger] tail2[j]).1
                == ValidationCode::SegmentFileRangeOutOfBounds;
            assert(tail2[j] == mis);
        }
    }
}

/// The issues with one of the per-segment checks come from the
/// missing-segment finding or from the per-segment findings.
proof fn lemma_issue_code_parts(img: ElfImage, code: ValidationCode)
    requires
        code == ValidationCode::NoLoadSegments || code == ValidationCode::SegmentFileRangeOutOfBounds
            || code == ValidationCode::SegmentVaddrMisaligned,
    ensures
        code == ValidationCode::NoLoadSegments ==> (has_code(validation_issues(img), code) <==> load_headers(
            img.segments_spec(),
        ).len() == 0),
        code != ValidationCode::NoLoadSegments ==> (has_code(validation_issues(img), code) <==> has_code(
            segment_issues(
                load_headers(img.segments_spec()),
                load_headers(img.segments_spec()).len() as int,
            ),
            code,
        )),
{
    let segs = img.segments_spec();
    let hs = load_headers(segs);
    let sorted = sort_ranges(ranges_of(hs));
    let pairs = if sorted.len() == 0 {
        0
    } else {
        sorted.len() - 1
    };
    let no_load = if hs.len() == 0 {
        seq![
            (
                ValidationLevel::Warning,
                ValidationCode::NoLoadSegments,
                "the object declares no loadable segment"@,
                None::<Seq<char>>,
            ),
        ]
    } else {
        Seq::empty()
    };
    let entry = if entry_outside(img) {
        seq![
            (
                ValidationLevel::Warning,
                ValidationCode::EntryPointOutOfImage,
                "the entry point lies outside the mapped image"@,
                Some(hex_text(img.header_spec().entry as nat)),
            ),
        ]
    } else {
        Seq::empty()
    };
    let strtab = if bad_shstrndx(img) {
        seq![
            (
                ValidationLevel::Warning,
                ValidationCode::InvalidStringTableIndex,
                "the section-name string table index names no string table"@,
                None::<Seq<char>>,
            ),
        ]
    } else {
        Seq::empty()
    };
    let ov = overlap_issues(sorted, pairs);
    let sg = segment_issues(hs, hs.len() as int);
    let issues = validation_issues(img);
    assert(issues == no_load + entry + ov + sg + strtab);
    lemma_overlap_issue_codes(sorted, pairs);
    lemma_segment_issue_codes(hs, hs.len() as int);
    lemma_has_code_concat(no_load + entry + ov + sg, strtab, code);
    lemma_has_code_concat(no_load + entry + ov, sg, code);
    lemma_has_code_concat(no_load + entry, ov, code);
    lemma_has_code_concat(no_load, entry, code);
    if has_code(entry, code) {
        let j = choose|j: int| 0 <= j < entry.len() && (#[trigger] entry[j]).1 == code;
        assert(entry[j].1 == ValidationCode::EntryPointOutOfImage);
    }
    if has_code(ov, code) {
        let j = choose|j: int| 0 <= j < ov.len() && (#[trigger] ov[j]).1 == code;
    }
    if has_code(strtab, code) {
        let j = choose|j: int| 0 <= j < strtab.len() && (#[trigger] strtab[j]).1 == code;
        assert(strtab[j].1 == ValidationCode::InvalidStringTableIndex);
    }
    if has_code(no_load, code) {
        let j = choose|j: int| 0 <= j < no_load.len() && (#[trigger] no_load[j]).1 == code;
        assert(no_load[j].1 == ValidationCode::NoLoadSegments);
    }
    if code == ValidationCode::NoLoadSegments {
        if hs.len() == 0 {
            assert(no_load[0].1 == ValidationCode::NoLoadSegments);
        }
        if has_code(sg, code) {
            let j = choose|j: int| 0 <= j < sg.len() && (#[trigger] sg[j]).1 == code;
        }
    }
}

/// No loadable header is left exactly when no segment has type `PT_LOAD`.
proof fn lemma_no_load(segs: Seq<Segment>)
    ensures
        load_headers(segs).len() == 0 <==> forall|i: int|
            0 <= i < segs.len() ==> (#[trigger] segs[i]).header.kind.0 != 1,
{
    lemma_load_headers_members(segs);
}

/// A loadable header has more file than memory bytes exactly when some
/// `PT_LOAD` segment does.
proof fn lemma_oversized_load(segs: Seq<Segment>)
    ensures
        (exists|k: int|
            0 <= k < load_headers(segs).len() && (#[trigger] load_headers(segs)[k]).filesz
                > load_headers(segs)[k].memsz) <==> exists|i: int|
            0 <= i < segs.len() && (#[trigger] segs[i]).header.kind.0 == 1
                && segs[i].header.filesz > segs[i].header.memsz,
{
    let hs = load_headers(segs);
    lemma_load_headers_members(segs);
    if exists|k: int| 0 <= k < hs.len() && (#[trigger] hs[k]).filesz > hs[k].memsz {
        let k = choose|k: int| 0 <= k < hs.len() && (#[trigger] hs[k]).filesz > hs[k].memsz;
        let i = choose|i: int|
            0 <= i < segs.len() && (#[trigger] segs[i]).header.kind.0 == SegmentType::LOAD
                && segs[i].header == hs[k];
        assert(segs[i].header.filesz > segs[i].header.memsz);
    }
    if exists|i: int|
        0 <= i < segs.len() && (#[trigger] segs[i]).header.kind.0 == 1
            && segs[i].header.filesz > segs[i].header.memsz {
        let i = choose|i: int|
            0 <= i < segs.len() && (#[trigger] segs[i]).header.kind.0 == 1
                && segs[i].header.filesz > segs[i].header.memsz;
        let k = choose|k: int| 0 <= k < hs.len() && #[trigger] hs[k] == segs[i].header;
        assert(hs[k].filesz > hs[k].memsz);
    }
}

/// A loadable header is misaligned exactly when some `PT_LOAD` segment with
/// file bytes and an alignment above one has an offset and an address with
/// different remainders modulo its alignment.
proof fn lemma_misaligned_load(segs: Seq<Segment>)
    ensures
        (exists|k: int| 0 <= k < load_headers(segs).len() && misaligned(
            #[trigger] load_headers(segs)[k],
        )) <==> exists|i: int|
            0 <= i < segs.len() && (#[trigger] segs[i]).header.kind.0 == 1
                && segs[i].header.align > 1 && segs[i].header.filesz > 0 && segs[i].header.offset
                % segs[i].header.align != segs[i].header.vaddr % segs[i].header.align,
{
    let hs = load_headers(segs);
    lemma_load_headers_members(segs);
    if exists|k: int| 0 <= k < hs.len() && misaligned(#[trigger] hs[k]) {
        let k = choose|k: int| 0 <= k < hs.len() && misaligned(#[trigger] hs[k]);
        let i = choose|i: int|
            0 <= i < segs.len() && (#[trigger] segs[i]).header.kind.0 == SegmentType::LOAD
                && segs[i].header == hs[k];
        assert(misaligned(segs[i].header));
    }
    if exists|i: int|
        0 <= i < segs.len() && (#[trigger] segs[i]).header.kind.0 == 1
            && segs[i].header.align > 1 && segs[i].header.filesz > 0 && segs[i].header.offset
            % segs[i].header.align != segs[i].header.vaddr % segs[i].header.align {
        let i = choose|i: int|
            0 <= i < segs.len() && (#[trigger] segs[i]).header.kind.0 == 1
                && segs[i].header.align > 1 && segs[i].header.filesz > 0 && segs[i].header.offset
                % segs[i].header.align != segs[i].header.vaddr % segs[i].header.align;
        let k = choose|k: int| 0 <= k < hs.len() && #[trigger] hs[k] == segs[i].header;
        assert(misaligned(hs[k]));
    }
}

/// Validation reports a missing loadable segment exactly when no segment
/// has type `PT_LOAD` (1); a segment with more file bytes than memory bytes
/// exactly when some `PT_LOAD` segment has `p_filesz > p_memsz`; and a
/// segment whose file offset and address disagree exactly when some
/// `PT_LOAD` segment with file bytes and an alignment above one has
/// `p_offset` and `p_vaddr` with different remainders modulo `p_align`.
pub proof fn lemma_validate_segment_checks(img: ElfImage)
    ensures
        has_code(validation_issues(img), ValidationCode::NoLoadSegments) <==> forall|i: int|
            0 <= i < img.segments_spec().len() ==> (#[trigger] img.segments_spec()[i]).header.kind.0
                != 1,
        has_code(validation_issues(img), ValidationCode::SegmentFileRangeOutOfBounds) <==> exists|
            i: int,
        |
            0 <= i < img.segments_spec().len() && (#[trigger] img.segments_spec()[i]).header.kind.0
                == 1 && img.segments_spec()[i].header.filesz > img.segments_spec()[i].header.memsz,
        has_code(validation_issues(img), ValidationCode::SegmentVaddrMisaligned) <==> exists|i: int|
            0 <= i < img.segments_spec().len() && (#[trigger] img.segments_spec()[i]).header.kind.0
                == 1 && img.segments_spec()[i].header.align > 1
                && img.segments_spec()[i].header.filesz > 0 && img.segments_spec()[i].header.offset
                % img.segments_spec()[i].header.align != img.segments_spec()[i].header.vaddr
                % img.segments_spec()[i].header.align,
{
    let segs = img.segments_spec();
    let hs = load_headers(segs);
    lemma_no_load(segs);
    lemma_issue_code_parts(img, ValidationCode::NoLoadSegments);
    lemma_issue_code_parts(img, ValidationCode::SegmentFileRangeOutOfBounds);
    lemma_issue_code_parts(img, ValidationCode::SegmentVaddrMisaligned);
    lemma_segment_issue_presence(hs, hs.len() as int);
    lemma_oversized_load(segs);
    lemma_misaligned_load(segs);
}

/// Whether load ranges are in ascending lexicographic order.
pub open spec fn ranges_sorted(s: Seq<LoadRange>) -> bool {
    forall|i: int, j: int| 0 <= i < j < s.len() ==> !range_lt(#[trigger] s[j], #[trigger] s[i])
}

/// Inserting a range into sorted ranges keeps them sorted and adds just it.
proof fn lemma_insert_sorted(s: Seq<LoadRange>, x: LoadRange)
    requires
        ranges_sorted(s),
    ensures
        ranges_sorted(insert_sorted(s, x)),
        insert_sorted(s, x).len() == s.len() + 1,
        forall|y: LoadRange| #[trigger] insert_sorted(s, x).contains(y) <==> s.contains(y) || y == x,
        s.no_duplicates() && !s.contains(x) ==> insert_sorted(s, x).no_duplicates(),
{
    let j = first_match(s, after_pred(x), 0);
    lemma_first_match(s, after_pred(x), 0);
    let t = insert_sorted(s, x);
    assert(t.len() == s.len() + 1);
    assert forall|k: int| 0 <= k < t.len() implies #[trigger] t[k] == if k < j {
        s[k]
    } else if k == j {
        x
    } else {
        s[k - 1]
    } by {}
    assert forall|a: int, b: int| 0 <= a < b < t.len() implies !range_lt(
        #[trigger] t[b],
        #[trigger] t[a],
    ) by {
        if b < j {
        } else if b == j {
            assert(!after_pred(x)(s[a]));
        } else if a == j {
            if j < s.len() {
                assert(after_pred(x)(s[j]));
                if b - 1 > j {
                    assert(!range_lt(s[b - 1], s[j]));
                }
            }
        } else if a < j {
            assert(!after_pred(x)(s[a]));
        }
    }
    assert forall|y: LoadRange| #[trigger] t.contains(y) <==> s.contains(y) || y == x by {
        if t.contains(y) {
            let k = choose|k: int| 0 <= k < t.len() && t[k] == y;
            if k < j {
                assert(s[k] == y);
            } else if k > j {
                assert(s[k - 1] == y);
            }
        }
        if s.contains(y) {
            let k = choose|k: int| 0 <= k < s.len() && s[k] == y;
            if k < j {
                assert(t[k] == y);
            } else {
                assert(t[k + 1] == y);
            }
        }
        if y == x {
            assert(t[j] == y);
        }
    }
    if s.no_duplicates() && !s.contains(x) {
        assert forall|a: int, b: int| 0 <= a < t.len() && 0 <= b < t.len() && a != b implies t[a]
            != t[b] by {
            if a == j {
                if b < j {
                    assert(s.contains(s[b]));
                } else {
                    assert(s.contains(s[b - 1]));
                }
            } else if b == j {
                if a < j {
                    assert(s.contains(s[a]));
                } else {
                    assert(s.contains(s[a - 1]));
                }
            }
        }
    }
}

/// Sorting keeps exactly the given ranges and puts them in ascending order.
proof fn lemma_sort_ranges(r: Seq<LoadRange>)
    ensures
        ranges_sorted(sort_ranges(r)),
        sort_ranges(r).len() == r.len(),
        forall|y: LoadRange| #[trigger] sort_ranges(r).contains(y) <==> r.contains(y),
        r.no_duplicates() ==> sort_ranges(r).no_duplicates(),
    decreases r.len(),
{
    if r.len() > 0 {
        let d = r.drop_last();
        lemma_sort_ranges(d);
        lemma_insert_sorted(sort_ranges(d), r.last());
        if r.no_duplicates() {
            assert(d.no_duplicates()) by {
                assert forall|a: int, b: int| 0 <= a < d.len() && 0 <= b < d.len() && a != b implies d[a]
                    != d[b] by {
                    assert(d[a] == r[a] && d[b] == r[b]);
                }
            }
            if d.contains(r.last()) {
                let k = choose|k: int| 0 <= k < d.len() && d[k] == r.last();
                assert(r[k] == r[r.len() - 1]);
            }
        }
        assert forall|y: LoadRange| #[trigger] sort_ranges(r).contains(y) <==> r.contains(y) by {
            if r.contains(y) && y != r.last() {
                let k = choose|k: int| 0 <= k < r.len() && r[k] == y;
                assert(d[k] == y);
                assert(d.contains(y));
            }
            if d.contains(y) {
                let k = choose|k: int| 0 <= k < d.len() && d[k] == y;
                assert(r[k] == y);
            }
            if y == r.last() {
                assert(r[r.len() - 1] == y);
            }
        }
    } else {
        assert(sort_ranges(r) =~= Seq::<LoadRange>::empty());
    }
}

/// The overlap findings report a neighbouring pair exactly when its first
/// range ends after the second starts.
proof fn lemma_overlap_presence(sorted: Seq<LoadRange>, n: int)
    requires
        0 <= n < sorted.len(),
    ensures
        has_code(overlap_issues(sorted, n), ValidationCode::OverlappingSegments) <==> exists|i: int|
            0 <= i < n && (#[trigger] sorted[i]).1 > sorted[i + 1].0,
    decreases n,
{
    if n > 0 {
        lemma_overlap_presence(sorted, n - 1);
        let rest = overlap_issues(sorted, n - 1);
        let a = sorted[n - 1];
        let b = sorted[n];
        let item = (
            ValidationLevel::Error,
            ValidationCode::OverlappingSegments,
            "two loadable segments overlap in memory"@,
            Some(segment_pair_text(a.2 as nat, b.2 as nat)),
        );
        let tail = if a.1 > b.0 {
            seq![item]
        } else {
            Seq::<IssueModel>::empty()
        };
        assert(overlap_issues(sorted, n) =~= rest + tail);
        lemma_has_code_concat(rest, tail, ValidationCode::OverlappingSegments);
        if a.1 > b.0 {
            assert(tail[0].1 == ValidationCode::OverlappingSegments);
        }
        if exists|i: int| 0 <= i < n && (#[trigger] sorted[i]).1 > sorted[i + 1].0 {
            let i = choose|i: int| 0 <= i < n && (#[trigger] sorted[i]).1 > sorted[i + 1].0;
            if i < n - 1 {
                assert(has_code(rest, ValidationCode::OverlappingSegments));
            }
        }
    }
}

/// In sorted ranges, some range ends after a later one starts exactly when
/// some range ends after the next one starts.
proof fn lemma_sorted_overlap(s: Seq<LoadRange>)
    requires
        ranges_sorted(s),
    ensures
        (exists|i: int| 0 <= i < s.len() - 1 && (#[trigger] s[i]).1 > s[i + 1].0) <==> exists|
            i: int,
            j: int,
        | 0 <= i < j < s.len() && (#[trigger] s[i]).1 > (#[trigger] s[j]).0,
{
    if exists|i: int, j: int| 0 <= i < j < s.len() && (#[trigger] s[i]).1 > (#[trigger] s[j]).0 {
        let (i, j) = choose|i: int, j: int|
            0 <= i < j < s.len() && (#[trigger] s[i]).1 > (#[trigger] s[j]).0;
        if i + 1 < j {
            assert(!range_lt(s[j], s[i + 1]));
        }
        assert(s[i].1 > s[i + 1].0);
    }
    if exists|i: int| 0 <= i < s.len() - 1 && (#[trigger] s[i]).1 > s[i + 1].0 {
        let i = choose|i: int| 0 <= i < s.len() - 1 && (#[trigger] s[i]).1 > s[i + 1].0;
        assert(s[i].1 > s[i + 1].0);
    }
}

/// There are no more loadable headers than segments.
proof fn lemma_load_headers_len(segs: Seq<Segment>)
    ensures
        load_headers(segs).len() <= segs.len(),
    decreases segs.len(),
{
    if segs.len() > 0 {
        lemma_load_headers_len(segs.drop_last());
    }
}

/// The overlap issues come from the overlap findings alone.
proof fn lemma_overlap_code_parts(img: ElfImage)
    ensures
        ({
            let hs = load_headers(img.segments_spec());
            let sorted = sort_ranges(ranges_of(hs));
            let pairs = if sorted.len() == 0 {
                0
            } else {
                sorted.len() - 1
            };
            has_code(validation_issues(img), ValidationCode::OverlappingSegments) <==> has_code(
                overlap_issues(sorted, pairs),
                ValidationCode::OverlappingSegments,
            )
        }),
{
    let code = ValidationCode::OverlappingSegments;
    let segs = img.segments_spec();
    let hs = load_headers(segs);
    let sorted = sort_ranges(ranges_of(hs));
    let pairs = if sorted.len() == 0 {
        0
    } else {
        sorted.len() - 1
    };
    let no_load = if hs.len() == 0 {
        seq![
            (
                ValidationLevel::Warning,
                ValidationCode::NoLoadSegments,
                "the object declares no loadable segment"@,
                None::<Seq<char>>,
            ),
        ]
    } else {
        Seq::empty()
    };
    let entry = if entry_outside(img) {
        seq![
            (
                ValidationLevel::Warning,
                ValidationCode::EntryPointOutOfImage,
                "the entry point lies outside the mapped image"@,
                Some(hex_text(img.header_spec().entry as nat)),
            ),
        ]
    } else {
        Seq::empty()
    };
    let strtab = if bad_shstrndx(img) {
        seq![
            (
                ValidationLevel::Warning,
                ValidationCode::InvalidStringTableIndex,
                "the section-name string table index names no string table"@,
                None::<Seq<char>>,
            ),
        ]
    } else {
        Seq::empty()
    };
    let ov = overlap_issues(sorted, pairs);
    let sg = segment_issues(hs, hs.len() as int);
    assert(validation_issues(img) == no_load + entry + ov + sg + strtab);
    lemma_segment_issue_codes(hs, hs.len() as int);
    lemma_has_code_concat(no_load + entry + ov + sg, strtab, code);
    lemma_has_code_concat(no_load + entry + ov, sg, code);
    lemma_has_code_concat(no_load + entry, ov, code);
    lemma_has_code_concat(no_load, entry, code);
    if has_code(entry, code) {
        let j = choose|j: int| 0 <= j < entry.len() && (#[trigger] entry[j]).1 == code;
        assert(entry[j].1 == ValidationCode::EntryPointOutOfImage);
    }
    if has_code(sg, code) {
        let j = choose|j: int| 0 <= j < sg.len() && (#[trigger] sg[j]).1 == code;
    }
    if has_code(strtab, code) {
        let j = choose|j: int| 0 <= j < strtab.len() && (#[trigger] strtab[j]).1 == code;
        assert(strtab[j].1 == ValidationCode::InvalidStringTableIndex);
    }
    if has_code(no_load, code) {
        let j = choose|j: int| 0 <= j < no_load.len() && (#[trigger] no_load[j]).1 == code;
        assert(no_load[j].1 == ValidationCode::NoLoadSegments);
    }
}

/// An entry point issue comes from the entry point check alone.
proof fn lemma_entry_code_parts(img: ElfImage)
    ensures
        has_code(validation_issues(img), ValidationCode::EntryPointOutOfImage) <==> entry_outside(
            img,
        ),
{
    let code = ValidationCode::EntryPointOutOfImage;
    let segs = img.segments_spec();
    let hs = load_headers(segs);
    let sorted = sort_ranges(ranges_of(hs));
    let pairs = if sorted.len() == 0 {
        0
    } else {
        sorted.len() - 1
    };
    let no_load = if hs.len() == 0 {
        seq![
            (
                ValidationLevel::Warning,
                ValidationCode::NoLoadSegments,
                "the object declares no loadable segment"@,
                None::<Seq<char>>,
            ),
        ]
    } else {
        Seq::empty()
    };
    let entry = if entry_outside(img) {
        seq![
            (
                ValidationLevel::Warning,
                ValidationCode::EntryPointOutOfImage,
                "the entry point lies outside the mapped image"@,
                Some(hex_text(img.header_spec().entry as nat)),
            ),
        ]
    } else {
        Seq::empty()
    };
    let strtab = if bad_shstrndx(img) {
        seq![
            (
                ValidationLevel::Warning,
                ValidationCode::InvalidStringTableIndex,
                "the section-name string table index names no string table"@,
                None::<Seq<char>>,
            ),
        ]
    } else {
        Seq::empty()
    };
    let ov = overlap_issues(sorted, pairs);
    let sg = segment_issues(hs, hs.len() as int);
    assert(validation_issues(img) == no_load + entry + ov + sg + strtab);
    lemma_segment_issue_codes(hs, hs.len() as int);
    lemma_overlap_issue_codes(sorted, pairs);
    lemma_has_code_concat(no_load + entry + ov + sg, strtab, code);
    lemma_has_code_concat(no_load + entry + ov, sg, code);
    lemma_has_code_concat(no_load + entry, ov, code);
    lemma_has_code_concat(no_load, entry, code);
    if entry_outside(img) {
        assert(entry[0].1 == code);
    }
    if has_code(ov, code) {
        let j = choose|j: int| 0 <= j < ov.len() && (#[trigger] ov[j]).1 == code;
    }
    if has_code(sg, code) {
        let j = choose|j: int| 0 <= j < sg.len() && (#[trigger] sg[j]).1 == code;
    }
    if has_code(strtab, code) {
        let j = choose|j: int| 0 <= j < strtab.len() && (#[trigger] strtab[j]).1 == code;
        assert(strtab[j].1 == ValidationCode::InvalidStringTableIndex);
    }
    if has_code(no_load, code) {
        let j = choose|j: int| 0 <= j < no_load.len() && (#[trigger] no_load[j]).1 == code;
        assert(no_load[j].1 == ValidationCode::NoLoadSegments);
    }
}

/// Validation reports an entry point outside the image exactly when the
/// entry point is nonzero and lies below the image base or at or past the
/// end of the mapped image (the base plus the span), the end counting as
/// past every address when it exceeds the 64-bit range.
pub proof fn lemma_validate_entry(img: ElfImage)
    ensures
        has_code(validation_issues(img), ValidationCode::EntryPointOutOfImage) <==> (
        img.header_spec().entry != 0 && (image_geometry(&img).base + image_geometry(&img).span
            > u64::MAX || img.header_spec().entry < image_geometry(&img).base
            || img.header_spec().entry >= image_geometry(&img).base + image_geometry(&img).span)),
{
    lemma_entry_code_parts(img);
}

/// Whether loadable header `p` comes before header `q` in the order of start
/// address, then saturated end address, then position.
pub open spec fn header_precedes(hs: Seq<ProgramHeader>, p: int, q: int) -> bool {
    hs[p].vaddr < hs[q].vaddr || (hs[p].vaddr == hs[q].vaddr && (sat_add(hs[p].vaddr, hs[p].memsz)
        < sat_add(hs[q].vaddr, hs[q].memsz) || (sat_add(hs[p].vaddr, hs[p].memsz) == sat_add(
        hs[q].vaddr,
        hs[q].memsz,
    ) && p < q)))
}

/// Validation reports overlapping loadable segments exactly when, among the
/// loadable headers, one whose memory range ends after another's starts
/// precedes it in the order of start address, then end address
/// (`p_vaddr + p_memsz`, saturated), then position. Ranges that only touch
/// do not overlap.
pub proof fn lemma_validate_overlap(img: ElfImage)
    ensures
        has_code(validation_issues(img), ValidationCode::OverlappingSegments) <==> exists|
            p: int,
            q: int,
        |
            0 <= p < load_headers(img.segments_spec()).len() && 0 <= q < load_headers(
                img.segments_spec(),
            ).len() && #[trigger] header_precedes(load_headers(img.segments_spec()), p, q)
                && sat_add(
                load_headers(img.segments_spec())[p].vaddr,
                load_headers(img.segments_spec())[p].memsz,
            ) > load_headers(img.segments_spec())[q].vaddr,
{
    let segs = img.segments_spec();
    let hs = load_headers(segs);
    let r = ranges_of(hs);
    let sorted = sort_ranges(r);
    super::lemma_segment_count(&img);
    lemma_load_headers_len(segs);
    assert(r.no_duplicates()) by {
        assert forall|a: int, b: int| 0 <= a < r.len() && 0 <= b < r.len() && a != b implies r[a]
            != r[b] by {
            assert(r[a].2 == a && r[b].2 == b);
        }
    }
    lemma_sort_ranges(r);
    lemma_sorted_overlap(sorted);
    let pairs = if sorted.len() == 0 {
        0
    } else {
        sorted.len() - 1
    };
    lemma_overlap_code_parts(img);
    if sorted.len() > 0 {
        lemma_overlap_presence(sorted, pairs);
    }
    if exists|i: int, j: int|
        0 <= i < j < sorted.len() && (#[trigger] sorted[i]).1 > (#[trigger] sorted[j]).0 {
        let (i, j) = choose|i: int, j: int|
            0 <= i < j < sorted.len() && (#[trigger] sorted[i]).1 > (#[trigger] sorted[j]).0;
        assert(sorted.contains(sorted[i]));
        assert(sorted.contains(sorted[j]));
        let p = choose|p: int| 0 <= p < r.len() && r[p] == sorted[i];
        let q = choose|q: int| 0 <= q < r.len() && r[q] == sorted[j];
        assert(!range_lt(sorted[j], sorted[i]));
        assert(sorted[i] != sorted[j]);
        assert(r[p].2 == p && r[q].2 == q);
        assert(header_precedes(hs, p, q));
    }
    if exists|p: int, q: int|
        0 <= p < hs.len() && 0 <= q < hs.len() && #[trigger] header_precedes(hs, p, q) && sat_add(
            hs[p].vaddr,
            hs[p].memsz,
        ) > hs[q].vaddr {
        let (p, q) = choose|p: int, q: int|
            0 <= p < hs.len() && 0 <= q < hs.len() && #[trigger] header_precedes(hs, p, q)
                && sat_add(hs[p].vaddr, hs[p].memsz) > hs[q].vaddr;
        assert(r.contains(r[p]));
        assert(r.contains(r[q]));
        assert(sorted.contains(r[p]));
        assert(sorted.contains(r[q]));
        let i = choose|i: int| 0 <= i < sorted.len() && sorted[i] == r[p];
        let j = choose|j: int| 0 <= j < sorted.len() && sorted[j] == r[q];
        assert(r[p].2 == p && r[q].2 == q);
        assert(range_lt(r[p], r[q]));
        if j < i {
            assert(!range_lt(sorted[i], sorted[j]));
        }
        assert(i != j);
        assert(0 <= i < j < sorted.len() && sorted[i].1 > sorted[j].0);
    }
}

/// Every overlap finding is an error.
proof fn lemma_overlap_issue_levels(sorted: Seq<LoadRange>, n: int)
    ensures
        forall|j: int|
            0 <= j < overlap_issues(sorted, n).len() ==> (#[trigger] overlap_issues(sorted, n)[j]).0
                == ValidationLevel::Error,
    decreases n,
{
    if n > 0 {
        lemma_overlap_issue_levels(sorted, n - 1);
    }
}

/// A per-segment finding is an error when it reports more file than memory
/// bytes, and a warning otherwise.
proof fn lemma_segment_issue_levels(hs: Seq<ProgramHeader>, n: int)
    ensures
        forall|j: int|
            0 <= j < segment_issues(hs, n).len() ==> (#[trigger] segment_issues(hs, n)[j]).0 == if segment_issues(
                hs,
                n,
            )[j].1 == ValidationCode::SegmentFileRangeOutOfBounds {
                ValidationLevel::Error
            } else {
                ValidationLevel::Warning
            },
    decreases n,
{
    if n > 0 {
        lemma_segment_issue_levels(hs, n - 1);
    }
}

/// Overlapping loadable segments and a segment with more file than memory
/// bytes are reported as errors; every other finding is a warning.
pub proof fn lemma_validation_levels(img: ElfImage)
    ensures
        forall|j: int|
            0 <= j < validation_issues(img).len() ==> ((#[trigger] validation_issues(img)[j]).0
                == ValidationLevel::Error <==> (validation_issues(img)[j].1
                == ValidationCode::OverlappingSegments || validation_issues(img)[j].1
                == ValidationCode::SegmentFileRangeOutOfBounds)),
{
    let segs = img.segments_spec();
    let hs = load_headers(segs);
    let sorted = sort_ranges(ranges_of(hs));
    let pairs = if sorted.len() == 0 {
        0
    } else {
        sorted.len() - 1
    };
    let issues = validation_issues(img);
    let ov = overlap_issues(sorted, pairs);
    let sg = segment_issues(hs, hs.len() as int);
    lemma_overlap_issue_levels(sorted, pairs);
    lemma_segment_issue_levels(hs, hs.len() as int);
    lemma_overlap_issue_codes(sorted, pairs);
    lemma_segment_issue_codes(hs, hs.len() as int);
    let a = if hs.len() == 0 {
        1int
    } else {
        0int
    };
    let b = if entry_outside(img) {
        1int
    } else {
        0int
    };
    assert forall|j: int| 0 <= j < issues.len() implies ((#[trigger] issues[j]).0
        == ValidationLevel::Error <==> (issues[j].1 == ValidationCode::OverlappingSegments
        || issues[j].1 == ValidationCode::SegmentFileRangeOutOfBounds)) by {
        if j >= a + b && j < a + b + ov.len() {
            assert(issues[j] == ov[j - a - b]);
        } else if j >= a + b + ov.len() && j < a + b + ov.len() + sg.len() {
            assert(issues[j] == sg[j - a - b - ov.len()]);
        }
    }
}

} // verus!

//! Byte-level editing of an [`ElfImage`] through image-relative offsets.

use vstd::prelude::*;

use crate::program::{header_covers, Segment, SegmentType};
use crate::section::{section_covers, Section};

use super::inspect::{covering_segment, read_at_vaddr_spec, zero_extended};
use super::{first_match, image_geometry, lemma_first_match, ElfImage};

verus! {

/// `d` with the bytes from `start` on replaced by `src`.
pub open spec fn splice(d: Seq<u8>, start: int, src: Seq<u8>) -> Seq<u8> {
    d.take(start) + src + d.skip(start + src.len())
}

/// The predicate of loadable segments whose memory range covers `vaddr`.
pub open spec fn load_covers_pred(vaddr: u64) -> spec_fn(Segment) -> bool {
    |s: Segment| s.header.kind.0 == SegmentType::LOAD && header_covers(s.header, vaddr)
}

/// Whether a write of `len` bytes at `vaddr` lands in section `s`.
pub open spec fn section_takes_write(s: Section, vaddr: u64, len: int) -> bool {
    section_covers(s.header, vaddr) && !s.header.nobits_spec() && vaddr - s.header.addr
        <= usize::MAX && vaddr - s.header.addr + len <= s.data@.len()
}

/// The index of the segment a write at image-relative offset `ioff` goes to,
/// when the write succeeds.
pub open spec fn write_target(img: &ElfImage, ioff: u64, len: int) -> Option<int> {
    let vaddr = image_geometry(img).base + ioff;
    let segs = img.segments_spec();
    let i = first_match(segs, load_covers_pred(vaddr as u64), 0);
    if vaddr > u64::MAX || i >= segs.len() {
        None
    } else {
        let start = vaddr - segs[i].header.vaddr;
        if start > usize::MAX || start + len > usize::MAX || start + len > segs[i].data@.len() {
            None
        } else {
            Some(i)
        }
    }
}

fn is_load_covering(s: &Segment, vaddr: u64) -> (res: bool)
    ensures
        res == load_covers_pred(vaddr)(*s),
{
    s.header.kind.0 == SegmentType::LOAD && s.contains_vaddr(vaddr)
}

fn copy_into(target: &mut Vec<u8>, start: usize, data: &[u8])
    requires
        start + data@.len() <= old(target)@.len(),
    ensures
        final(target)@ == splice(old(target)@, start as int, data@),
{
    let n = target.len();
    let mut k: usize = 0;
    while k < data.len()
        invariant
            k <= data@.len(),
            n == target@.len(),
            start + data@.len() <= target@.len(),
            target@.len() == old(target)@.len(),
            forall|j: int| 0 <= j < start ==> target@[j] == old(target)@[j],
            forall|j: int| start + data@.len() <= j < target@.len() ==> target@[j] == old(target)@[j],
            forall|j: int| 0 <= j < k ==> target@[start + j] == data@[j],
        decreases data@.len() - k,
    {
        target.set(start + k, data[k]);
        k = k + 1;
    }
    assert(target@ =~= splice(old(target)@, start as int, data@));
}

impl ElfImage {
    /// Replaces bytes at an image-relative offset.
    ///
    /// The write updates the covering loadable segment. It also updates every
    /// allocated section that covers the same virtual address and holds the
    /// whole replacement, so a later serialization of either view sees the
    /// change.
    ///
    /// Returns `None`, and changes nothing, when the offset or the replacement
    /// range has no file bytes in the covering loadable segment.
    pub fn write_at_ioff(&mut self, ioff: u64, data: &[u8]) -> (res: Option<()>)
        ensures
            final(self).ident_spec() == old(self).ident_spec(),
            final(self).header_spec() == old(self).header_spec(),
            final(self).runtime_base_spec() == old(self).runtime_base_spec(),
            match write_target(old(self), ioff, data@.len() as int) {
                None => res is None && final(self).segments_spec() == old(self).segments_spec()
                    && final(self).sections_spec() == old(self).sections_spec(),
                Some(i) => {
                    let vaddr = (image_geometry(old(self)).base + ioff) as u64;
                    let olds = old(self).segments_spec();
                    let news = final(self).segments_spec();
                    let oldc = old(self).sections_spec();
                    let newc = final(self).sections_spec();
                    &&& res is Some
                    &&& news.len() == olds.len()
                    &&& forall|j: int| 0 <= j < olds.len() ==> #[trigger] news[j].header == olds[j].header
                    &&& forall|j: int| 0 <= j < olds.len() && j != i ==> #[trigger] news[j].data@ == olds[j].data@
                    &&& news[i].data@ == splice(olds[i].data@, vaddr - olds[i].header.vaddr, data@)
                    &&& newc.len() == oldc.len()
                    &&& forall|j: int| 0 <= j < oldc.len() ==> #[trigger] newc[j].header == oldc[j].header
                    &&& forall|j: int| 0 <= j < oldc.len() ==> #[trigger] newc[j].name@ == oldc[j].name@
                    &&& forall|j: int| 0 <= j < oldc.len() ==> #[trigger] newc[j].data@ == if section_takes_write(
                        oldc[j],
                        vaddr,
                        data@.len() as int,
                    ) {
                        splice(oldc[j].data@, vaddr - oldc[j].header.addr, data@)
                    } else {
                        oldc[j].data@
                    }
                },
            },
    {
        let vaddr = match self.image_base().checked_add(ioff) {
            Some(v) => v,
            None => return None,
        };
        let ghost p = load_covers_pred(vaddr);
        let mut i: usize = 0;
        while i < self.segments.len() && !is_load_covering(&self.segments[i], vaddr)
            invariant
                i <= self.segments@.len(),
                p == load_covers_pred(vaddr),
                self.segments@ == old(self).segments@,
                self.sections@ == old(self).sections@,
                first_match(self.segments@, p, 0) == first_match(self.segments@, p, i as int),
            decreases self.segments@.len() - i,
        {
            i = i + 1;
        }
        proof {
            lemma_first_match(self.segments@, p, i as int);
        }
        if i >= self.segments.len() {
            return None;
        }
        let diff = vaddr - self.segments[i].header.vaddr;
        if diff > usize::MAX as u64 {
            return None;
        }
        let start = diff as usize;
        let end = match start.checked_add(data.len()) {
            Some(e) => e,
            None => return None,
        };
        if end > self.segments[i].data.len() {
            return None;
        }
        let ghost old_segs = self.segments@;
        let mut segment = self.segments.remove(i);
        copy_into(&mut segment.data, start, data);
        self.segments.insert(i, segment);
        proof {
            assert forall|j: int| 0 <= j < old_segs.len() && j != i implies #[trigger] self.segments@[j]
                == old_segs[j] by {
                if j < i {
                    assert(self.segments@[j] == old_segs[j]);
                } else {
                    assert(self.segments@[j] == old_segs[j]);
                }
            }
        }
        let ghost old_secs = self.sections@;
        let ghost new_segs = self.segments@;
        let mut k: usize = 0;
        while k < self.sections.len()
            invariant
                k <= self.sections@.len(),
                self.ident == old(self).ident,
                self.header == old(self).header,
                self.runtime_base == old(self).runtime_base,
                self.segments@ == new_segs,
                self.sections@.len() == old_secs.len(),
                forall|j: int| 0 <= j < old_secs.len() ==> #[trigger] self.sections@[j].header
                    == old_secs[j].header,
                forall|j: int| 0 <= j < old_secs.len() ==> #[trigger] self.sections@[j].name@
                    == old_secs[j].name@,
                forall|j: int| k <= j < old_secs.len() ==> #[trigger] self.sections@[j].data@
                    == old_secs[j].data@,
                forall|j: int| 0 <= j < k ==> #[trigger] self.sections@[j].data@ == if section_takes_write(
                    old_secs[j],
                    vaddr,
                    data@.len() as int,
                ) {
                    splice(old_secs[j].data@, vaddr - old_secs[j].header.addr, data@)
                } else {
                    old_secs[j].data@
                },
            decreases old_secs.len() - k,
        {
            let takes = {
                let section = &self.sections[k];
                if !section.contains_vaddr(vaddr) || section.header.is_nobits() {
                    false
                } else {
                    let d = vaddr - section.header.addr;
                    d <= usize::MAX as u64 && (d as usize) <= section.data.len() && data.len()
                        <= section.data.len() - (d as usize)
                }
            };
            if takes {
                let d = (vaddr - self.sections[k].header.addr) as usize;
                let ghost before = self.sections@;
                let mut section = self.sections.remove(k);
                copy_into(&mut section.data, d, data);
                self.sections.insert(k, section);
                proof {
                    assert(self.sections@[k as int].header == before[k as int].header);
                    assert(self.sections@[k as int].name@ == before[k as int].name@);
                    assert forall|j: int| 0 <= j < before.len() && j != k implies #[trigger] self.sections@[j]
                        == before[j] by {
                        if j < k {
                            assert(self.sections@[j] == before[j]);
                        } else {
                            assert(self.sections@[j] == before[j]);
                        }
                    }
                }
            }
            k = k + 1;
        }
        Some(())
    }
}

/// Reading back an image-relative range right after a successful write
/// gives the written bytes, when the first segment that covers the address
/// is the loadable segment that took the write.
pub proof fn lemma_read_after_write(
    before: ElfImage,
    after: ElfImage,
    ioff: u64,
    data: Seq<u8>,
)
    requires
        write_target(&before, ioff, data.len() as int) matches Some(i) && {
            let vaddr = (image_geometry(&before).base + ioff) as u64;
            let olds = before.segments_spec();
            let news = after.segments_spec();
            &&& covering_segment(olds, vaddr) == i
            &&& news.len() == olds.len()
            &&& forall|j: int| 0 <= j < olds.len() ==> #[trigger] news[j].header == olds[j].header
            &&& news[i].data@ == splice(olds[i].data@, vaddr - olds[i].header.vaddr, data)
        },
    ensures
        read_at_vaddr_spec(
            after.segments_spec(),
            (image_geometry(&before).base + ioff) as u64,
            data.len() as int,
        ) == Some(data),
{
    let i = write_target(&before, ioff, data.len() as int)->0;
    let vaddr = (image_geometry(&before).base + ioff) as u64;
    let olds = before.segments_spec();
    let news = after.segments_spec();
    let p = super::inspect::covers_pred(vaddr);
    lemma_first_match(olds, p, 0);
    assert forall|j: int| 0 <= j < olds.len() implies p(#[trigger] news[j]) == p(olds[j]) by {}
    lemma_first_match_same(olds, news, p, 0);
    let start = vaddr - olds[i].header.vaddr;
    assert(zero_extended(news[i].data@, start, data.len() as int) =~= data);
}

/// Two sequences on which a predicate agrees element by element have the
/// same first match.
pub proof fn lemma_first_match_same<T>(a: Seq<T>, b: Seq<T>, p: spec_fn(T) -> bool, i: int)
    requires
        a.len() == b.len(),
        0 <= i <= a.len(),
        forall|j: int| 0 <= j < a.len() ==> p(#[trigger] b[j]) == p(a[j]),
    ensures
        first_match(a, p, i) == first_match(b, p, i),
    decreases a.len() - i,
{
    if i < a.len() {
        assert(p(b[i]) == p(a[i]));
        lemma_first_match_same(a, b, p, i + 1);
    }
}

} // verus!

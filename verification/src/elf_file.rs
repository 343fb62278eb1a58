//! Lossless ELF file container.
//!
//! [`ElfFile`] wraps an [`ElfImage`] together with the bytes that follow the
//! last structure an image parse reads, so that building it again gives back
//! the whole input.

use vstd::prelude::*;

use crate::elf::{
    file_bytes_spec, file_image_matches, file_layout_error_of, file_layout_ok, image_geometry, ElfImage,
    Layout,
};
use crate::error::{ErrorKind, Result};
use crate::header::{ehdr_size, ElfHeader};
use crate::program::{phdr_size, ProgramHeader, Segment};
use crate::reader::ReadAt;
use crate::section::{shdr_size, Section, SectionHeader};

verus! {

/// The larger of two offsets.
pub open spec fn max_u64(a: u64, b: u64) -> u64 {
    if a >= b {
        a
    } else {
        b
    }
}

/// The end of a range that starts at `start` and spans `len` bytes, or
/// `fallback` when that end overflows.
pub open spec fn range_end(start: u64, len: int, fallback: u64) -> u64 {
    if start + len <= u64::MAX {
        (start + len) as u64
    } else {
        fallback
    }
}

/// The structural end after the file ranges of the segments.
pub open spec fn segments_end(segs: Seq<Segment>, end: u64) -> u64
    decreases segs.len(),
{
    if segs.len() == 0 {
        end
    } else {
        let e = segments_end(segs.drop_last(), end);
        let h = segs.last().header;
        if h.filesz > 0 {
            max_u64(e, range_end(h.offset, h.filesz as int, e))
        } else {
            e
        }
    }
}

/// The structural end after the file ranges of the sections.
pub open spec fn sections_end(secs: Seq<Section>, end: u64) -> u64
    decreases secs.len(),
{
    if secs.len() == 0 {
        end
    } else {
        let e = sections_end(secs.drop_last(), end);
        let h = secs.last().header;
        if !h.nobits_spec() && h.size > 0 {
            max_u64(e, range_end(h.offset, h.size as int, e))
        } else {
            e
        }
    }
}

/// The file offset one past the last structural byte of `img`: the ELF
/// header, the program header table, the segment and section file ranges,
/// and the section header table, each as the header declares it.
pub open spec fn structure_end(img: ElfImage) -> u64 {
    let class = img.ident_spec().class;
    let h = img.header_spec();
    let e0 = ehdr_size(class) as u64;
    let e1 = max_u64(e0, range_end(h.phoff, h.phnum * phdr_size(class), e0));
    let e2 = segments_end(img.segments_spec(), e1);
    let e3 = sections_end(img.sections_spec(), e2);
    max_u64(e3, range_end(h.shoff, h.shnum * shdr_size(class), e3))
}

/// The bytes of `c` after offset `end`, or none when `end` lies past it.
pub open spec fn trailing_of(c: Seq<u8>, end: u64) -> Seq<u8> {
    if end <= c.len() {
        c.skip(end as int)
    } else {
        Seq::empty()
    }
}

/// An [`ElfImage`] paired with trailing file bytes.
///
/// Some tools append data after the section header table. This container
/// preserves those bytes so a file dump keeps them intact.
#[derive(Debug, Clone, PartialEq, Eq)]
pub struct ElfFile {
    image: ElfImage,
    trailing: Vec<u8>,
}

impl ElfFile {
    /// The wrapped image.
    pub closed spec fn image_spec(&self) -> ElfImage {
        self.image
    }

    /// The preserved trailing bytes.
    pub closed spec fn trailing_spec(&self) -> Seq<u8> {
        self.trailing@
    }

    /// Parses a file from raw bytes.
    ///
    /// The image structures are parsed and the bytes after the last structure
    /// are stored as trailing data.
    pub fn parse(data: &[u8]) -> (res: Result<Self>)
        ensures
            res is Ok <==> file_layout_ok(data@),
            res matches Ok(f) ==> {
                &&& file_image_matches(data@, f.image_spec())
                &&& f.image_spec().runtime_base_spec() == image_geometry(&f.image_spec()).base
                &&& f.trailing_spec() == trailing_of(data@, structure_end(f.image_spec()))
            },
    {
        let image = ElfImage::parse(data)?;
        let file_end = last_structure_end(&image);
        let mut trailing: Vec<u8> = Vec::new();
        if file_end <= data.len() as u64 {
            let start = file_end as usize;
            let mut k: usize = start;
            while k < data.len()
                invariant
                    start <= k <= data@.len(),
                    trailing@ == data@.subrange(start as int, k as int),
                decreases data@.len() - k,
            {
                proof {
                    assert(data@.subrange(start as int, k + 1) =~= data@.subrange(
                        start as int,
                        k as int,
                    ).push(data@[k as int]));
                }
                trailing.push(data[k]);
                k = k + 1;
            }
            assert(trailing@ =~= trailing_of(data@, file_end));
        } else {
            assert(trailing@ =~= trailing_of(data@, file_end));
        }
        Ok(ElfFile { image, trailing })
    }

    /// Reads a file from a positional source.
    pub fn read_from<R: ReadAt>(reader: &R) -> (res: Result<Self>)
        ensures
            res matches Ok(f) ==> f.image_spec().runtime_base_spec() == image_geometry(
                &f.image_spec(),
            ).base,
            reader.reads_fully() ==> (res is Ok <==> file_layout_ok(reader.contents())),
            reader.reads_fully() ==> (res matches Ok(f) ==> {
                &&& file_image_matches(reader.contents(), f.image_spec())
                &&& f.trailing_spec() == trailing_of(
                    reader.contents(),
                    structure_end(f.image_spec()),
                ) || f.trailing_spec().len() == 0
            }),
    {
        assert(crate::elf::shifted(reader.contents(), 0) =~= reader.contents());
        let image = ElfImage::read_from(reader, 0, Layout::File)?;
        let file_end = last_structure_end(&image);
        let trailing: Vec<u8> = match trailing_after(reader, file_end, reader.size()) {
            Ok(bytes) => bytes,
            Err(_) => Vec::new(),
        };
        proof {
            if reader.reads_fully() && trailing@.len() > 0 {
                assert(trailing@ == trailing_of(reader.contents(), file_end));
            }
        }
        Ok(ElfFile { image, trailing })
    }

    /// Wraps an image with no trailing data.
    pub fn new(image: ElfImage) -> (res: Self)
        ensures
            res.image_spec() == image,
            res.trailing_spec().len() == 0,
    {
        ElfFile { image, trailing: Vec::new() }
    }

    /// Returns the underlying image.
    pub fn image(&self) -> (res: &ElfImage)
        ensures
            *res == self.image_spec(),
    {
        &self.image
    }

    /// Returns the underlying image for editing.
    pub fn image_mut(&mut self) -> (res: &mut ElfImage)
        ensures
            *res == old(self).image_spec(),
            final(self).image_spec() == *final(res),
            final(self).trailing_spec() == old(self).trailing_spec(),
    {
        &mut self.image
    }

    /// Consumes the container and returns the image.
    pub fn into_image(self) -> (res: ElfImage)
        ensures
            res == self.image_spec(),
    {
        self.image
    }

    /// Returns the trailing bytes.
    pub fn trailing(&self) -> (res: &[u8])
        ensures
            res@ == self.trailing_spec(),
    {
        self.trailing.as_slice()
    }

    /// Serializes the file: the image in file layout followed by trailing bytes.
    pub fn try_build(&self) -> (res: Result<Vec<u8>>)
        ensures
            match file_bytes_spec(self.image_spec()) {
                None => res matches Err(e) && e.kind_spec() matches ErrorKind::Generic(m) && m@
                    == file_layout_error_of(self.image_spec()),
                Some(b) => res matches Ok(v) && v@ == b + self.trailing_spec(),
            },
    {
        let mut bytes = match self.image.try_build() {
            Ok(b) => b,
            Err(e) => return Err(e),
        };
        let mut k: usize = 0;
        let ghost start = bytes@;
        while k < self.trailing.len()
            invariant
                k <= self.trailing@.len(),
                bytes@ == start + self.trailing@.take(k as int),
            decreases self.trailing@.len() - k,
        {
            proof {
                assert(self.trailing@.take(k + 1) =~= self.trailing@.take(k as int).push(
                    self.trailing@[k as int],
                ));
            }
            bytes.push(self.trailing[k]);
            k = k + 1;
        }
        assert(self.trailing@.take(self.trailing@.len() as int) =~= self.trailing@);
        Ok(bytes)
    }
}

impl core::ops::Deref for ElfFile {
    type Target = ElfImage;

    fn deref(&self) -> (res: &ElfImage)
        ensures
            *res == self.image_spec(),
    {
        &self.image
    }
}

/// Reads the bytes after `end` of a source whose reported size is `size`.
///
/// No bytes come back when the size is unknown, lies before `end`, or
/// leaves more than `usize::MAX` bytes after it. Otherwise the reader is
/// asked for the bytes from `end` to the reported size; an error comes back
/// when the read fails, and for a reader that reads fully and reports its
/// true size that is only when reserving memory for the bytes fails.
fn trailing_after<R: ReadAt>(reader: &R, end: u64, size: Option<u64>) -> (t: Result<Vec<u8>>)
    ensures
        match size {
            None => t matches Ok(v) && v@.len() == 0,
            Some(s) => {
                &&& s < end || s - end > usize::MAX ==> (t matches Ok(v) && v@.len() == 0)
                &&& reader.reads_fully() && s == reader.contents().len() && end <= s && s - end
                    <= usize::MAX ==> {
                    &&& t matches Ok(v) ==> v@ == trailing_of(reader.contents(), end)
                    &&& t matches Err(e) ==> e.kind_spec() matches ErrorKind::Generic(m) && m@
                        == "reader request is too large to allocate"@
                }
            },
        },
{
    match size {
        Some(s) => if s >= end && s - end <= usize::MAX as u64 {
            let bytes = reader.read_bytes_at(end, (s - end) as usize);
            proof {
                if reader.reads_fully() && s == reader.contents().len() {
                    if bytes is Ok {
                        assert(bytes->Ok_0@ =~= trailing_of(reader.contents(), end));
                    }
                }
            }
            bytes
        } else {
            Ok(Vec::new())
        },
        None => Ok(Vec::new()),
    }
}

/// Returns the file offset one past the last structural byte.
fn last_structure_end(image: &ElfImage) -> (res: u64)
    ensures
        res == structure_end(*image),
{
    let class = image.ident().class;
    let header = image.header();
    let ehsize = ElfHeader::size(class);
    let mut end: u64 = ehsize;
    let phentsize = ProgramHeader::size(class);
    let phdr_end = match header.phoff.checked_add(header.phnum as u64 * phentsize) {
        Some(v) => v,
        None => end,
    };
    if phdr_end > end {
        end = phdr_end;
    }
    let segments = image.segments();
    let ghost segs = segments@;
    let ghost e1 = end;
    let mut i: usize = 0;
    while i < segments.len()
        invariant
            i <= segs.len(),
            segs == segments@,
            end == segments_end(segs.take(i as int), e1),
        decreases segs.len() - i,
    {
        proof {
            assert(segs.take(i + 1).drop_last() =~= segs.take(i as int));
        }
        let h = segments[i].header;
        if h.filesz > 0 {
            let seg_end = match h.offset.checked_add(h.filesz) {
                Some(v) => v,
                None => end,
            };
            if seg_end > end {
                end = seg_end;
            }
        }
        i = i + 1;
    }
    assert(segs.take(segs.len() as int) =~= segs);
    let sections = image.sections();
    let ghost secs = sections@;
    let ghost e2 = end;
    let mut j: usize = 0;
    while j < sections.len()
        invariant
            j <= secs.len(),
            secs == sections@,
            end == sections_end(secs.take(j as int), e2),
        decreases secs.len() - j,
    {
        proof {
            assert(secs.take(j + 1).drop_last() =~= secs.take(j as int));
        }
        let h = sections[j].header;
        if !h.is_nobits() && h.size > 0 {
            let sec_end = match h.offset.checked_add(h.size) {
                Some(v) => v,
                None => end,
            };
            if sec_end > end {
                end = sec_end;
            }
        }
        j = j + 1;
    }
    assert(secs.take(secs.len() as int) =~= secs);
    let shentsize = SectionHeader::size(class);
    let shdr_end = match header.shoff.checked_add(header.shnum as u64 * shentsize) {
        Some(v) => v,
        None => end,
    };
    if shdr_end > end {
        end = shdr_end;
    }
    end
}

} // verus!

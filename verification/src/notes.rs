//! ELF note records.
//!
//! Notes carry auxiliary metadata such as the GNU build identifier. Each note
//! stores a name, a numeric type, and a descriptor. [`Note::parse_all`] walks a
//! note sequence from a `PT_NOTE` segment or `SHT_NOTE` section.

use vstd::prelude::*;
use vstd::utf8::{decode_utf8, valid_utf8};

use crate::error::{Error, ErrorKind, Result};
use crate::ident::Endian;
use crate::parse_utils::array4;
use crate::reader::{field32, window};
use crate::strtab::utf8_str;

verus! {

/// The note name for GNU extensions.
pub const NAME_GNU: &'static str = "GNU";

/// The GNU build-identifier note type.
pub const NT_GNU_BUILD_ID: u32 = 3;

/// The padding that brings `length` to a multiple of four.
pub open spec fn pad4(length: int) -> int {
    (4 - (length % 4)) % 4
}

/// The model of one note: name, type, and descriptor.
pub type NoteModel = (Seq<char>, u32, Seq<u8>);

/// The name bytes of a note with the one trailing NUL removed, when present.
pub open spec fn note_name_bytes(raw: Seq<u8>) -> Seq<u8> {
    if raw.len() > 0 && raw.last() == 0 {
        raw.drop_last()
    } else {
        raw
    }
}

/// The notes that `data` holds from `off` on: `Err` when a complete note's
/// name is not valid UTF-8; the walk stops at the first record that does
/// not fit the remaining bytes.
pub open spec fn notes_from(data: Seq<u8>, e: Endian, off: int) -> core::result::Result<Seq<NoteModel>, ()>
    decreases data.len() + 4 - off,
{
    if off < 0 || off > data.len() || data.len() - off < 12 {
        Ok(Seq::empty())
    } else {
        let namesz = field32(data, e, off) as int;
        let descsz = field32(data, e, off + 4) as int;
        let note_type = field32(data, e, off + 8);
        let name_end = off + 12 + namesz;
        let desc_start = name_end + pad4(namesz);
        let desc_end = desc_start + descsz;
        if desc_end > data.len() {
            Ok(Seq::empty())
        } else {
            let name = note_name_bytes(data.subrange(off + 12, name_end));
            if !valid_utf8(name) {
                Err(())
            } else {
                let note = (decode_utf8(name), note_type, data.subrange(desc_start, desc_end));
                proof {
                    assert(pad4(namesz) >= 0 && pad4(descsz) >= 0);
                }
                match notes_from(data, e, desc_end + pad4(descsz)) {
                    Ok(rest) => Ok(seq![note] + rest),
                    Err(()) => Err(()),
                }
            }
        }
    }
}

/// One parsed note record.
#[derive(Debug, Clone, PartialEq, Eq, Hash)]
pub struct Note {
    /// The note name, normally `"GNU"` or `"Linux"`.
    pub name: String,
    /// The owner-defined note type.
    pub note_type: u32,
    /// The note payload.
    pub descriptor: Vec<u8>,
}

impl View for Note {
    type V = NoteModel;

    open spec fn view(&self) -> NoteModel {
        (self.name@, self.note_type, self.descriptor@)
    }
}

/// The models of a sequence of notes.
pub open spec fn notes_view(notes: Seq<Note>) -> Seq<NoteModel> {
    notes.map_values(|n: Note| n@)
}

fn padding4(length: usize) -> (res: usize)
    ensures
        res == pad4(length as int),
        res < 4,
{
    (4 - (length % 4)) % 4
}

fn copy_range(data: &[u8], start: usize, end: usize) -> (res: Vec<u8>)
    requires
        start <= end <= data@.len(),
    ensures
        res@ == data@.subrange(start as int, end as int),
{
    let mut out: Vec<u8> = Vec::with_capacity(end - start);
    let mut i = start;
    while i < end
        invariant
            start <= i <= end,
            end <= data@.len(),
            out@ == data@.subrange(start as int, i as int),
        decreases end - i,
    {
        out.push(data[i]);
        i = i + 1;
        assert(out@ =~= data@.subrange(start as int, i as int));
    }
    out
}

impl Note {
    /// Returns the note name.
    pub fn name(&self) -> (res: &str)
        ensures
            res@ == self.name@,
    {
        self.name.as_str()
    }

    /// Returns the owner-defined note type.
    pub fn note_type(&self) -> (res: u32)
        ensures
            res == self.note_type,
    {
        self.note_type
    }

    /// Returns the note payload.
    pub fn descriptor(&self) -> (res: &[u8])
        ensures
            res@ == self.descriptor@,
    {
        self.descriptor.as_slice()
    }

    /// Tests whether this note is a GNU note of `note_type`.
    pub fn is_gnu(&self, note_type: u32) -> (res: bool)
        ensures
            res == (self.name@ == NAME_GNU@ && self.note_type == note_type),
    {
        let gnu = NAME_GNU.to_owned();
        self.name == gnu && self.note_type == note_type
    }

    /// Parses every complete note in `data`.
    ///
    /// Each note header stores a name size, a descriptor size, and a type. The
    /// name and descriptor are padded to four-byte boundaries. Parsing stops at
    /// the first record that does not fit the remaining bytes, and returns an
    /// error when a complete note's name is not valid UTF-8.
    pub fn parse_all(data: &[u8], endian: Endian) -> (res: Result<Vec<Note>>)
        ensures
            match notes_from(data@, endian, 0) {
                Ok(notes) => res matches Ok(v) && notes_view(v@) == notes,
                Err(()) => res matches Err(e) && e.kind_spec() == ErrorKind::InvalidUtf8,
            },
    {
        let mut notes: Vec<Note> = Vec::new();
        let mut offset: usize = 0;
        assert(data@.len() == data.len());
        while offset <= data.len() && data.len() - offset >= 12
            invariant
                data@.len() == data.len(),
                notes_from(data@, endian, 0) == match notes_from(data@, endian, offset as int) {
                    Ok(rest) => Ok(notes_view(notes@) + rest),
                    Err(()) => Err(()),
                },
            decreases data@.len() - offset,
        {
            let namesz = endian.u32(array4(data, offset).unwrap());
            let descsz = endian.u32(array4(data, offset + 4).unwrap());
            let note_type = endian.u32(array4(data, offset + 8).unwrap());
            let name_len = namesz as usize;
            let desc_len = descsz as usize;
            let ghost off = offset as int;
            let rest_len = data.len() - offset - 12;
            let mut fits = name_len <= rest_len;
            let mut name_end: usize = 0;
            let mut pad: usize = 0;
            if fits {
                name_end = offset + 12 + name_len;
                pad = padding4(name_len);
                fits = pad <= data.len() - name_end && desc_len <= data.len() - name_end - pad;
            }
            if !fits {
                assert(notes_from(data@, endian, off) == Ok::<Seq<NoteModel>, ()>(Seq::empty()));
                assert(notes_from(data@, endian, data@.len() as int) == Ok::<Seq<NoteModel>, ()>(
                    Seq::empty(),
                ));
                offset = data.len();
            } else {
                let desc_start = name_end + pad;
                let desc_end = desc_start + desc_len;
                let name_start = offset + 12;
                let mut name_stop = name_end;
                if name_stop > name_start && data[name_stop - 1] == 0 {
                    name_stop = name_stop - 1;
                }
                let name_bytes = vstd::slice::slice_subrange(data, name_start, name_stop);
                assert(name_bytes@ =~= note_name_bytes(
                    data@.subrange(name_start as int, name_end as int),
                ));
                let name = match utf8_str(name_bytes) {
                    Some(s) => s.to_owned(),
                    None => {
                        return Err(Error::invalid_utf8());
                    },
                };
                let descriptor = copy_range(data, desc_start, desc_end);
                let note = Note { name, note_type, descriptor };
                let ghost before = notes_view(notes@);
                notes.push(note);
                let tail_pad = padding4(desc_len);
                let ghost next = desc_end + pad4(desc_len as int);
                proof {
                    assert(notes_view(notes@) =~= before.push(note@));
                    match notes_from(data@, endian, next) {
                        Ok(rest) => {
                            assert(before + (seq![note@] + rest) =~= before.push(note@) + rest);
                        },
                        Err(()) => {},
                    }
                }
                if tail_pad > data.len() - desc_end {
                    assert(notes_from(data@, endian, next) == Ok::<Seq<NoteModel>, ()>(Seq::empty()));
                    assert(notes_from(data@, endian, data@.len() as int) == Ok::<Seq<NoteModel>, ()>(
                        Seq::empty(),
                    ));
                    offset = data.len();
                } else {
                    offset = desc_end + tail_pad;
                }
            }
        }
        proof {
            assert(notes_from(data@, endian, offset as int) == Ok::<Seq<NoteModel>, ()>(Seq::empty()));
            assert(notes_view(notes@) + Seq::<NoteModel>::empty() =~= notes_view(notes@));
        }
        Ok(notes)
    }
}

/// A note record holds `n_namesz`, `n_descsz` and `n_type` as four-byte
/// words in that order, then the name with its terminating NUL, zero-padded
/// to a multiple of four bytes, then the descriptor, zero-padded likewise.
/// `n_namesz` counts the NUL, which is not part of the name: the record
/// reads back as the one note of that name, type and descriptor.
pub proof fn lemma_note_record_layout(e: Endian, name: Seq<u8>, note_type: u32, desc: Seq<u8>)
    requires
        valid_utf8(name),
        name.len() + 1 <= u32::MAX,
        desc.len() <= u32::MAX,
    ensures
        notes_from(
            e.encode32((name.len() + 1) as u32) + e.encode32(desc.len() as u32) + e.encode32(
                note_type,
            ) + name + seq![0u8] + Seq::new(pad4(name.len() + 1int) as nat, |j: int| 0u8) + desc
                + Seq::new(pad4(desc.len() as int) as nat, |j: int| 0u8),
            e,
            0,
        ) == Ok::<Seq<NoteModel>, ()>(seq![(decode_utf8(name), note_type, desc)]),
{
    let namesz = (name.len() + 1) as u32;
    let descsz = desc.len() as u32;
    let zn = Seq::new(pad4(name.len() + 1int) as nat, |j: int| 0u8);
    let zd = Seq::new(pad4(desc.len() as int) as nat, |j: int| 0u8);
    let data = e.encode32(namesz) + e.encode32(descsz) + e.encode32(note_type) + name + seq![0u8]
        + zn + desc + zd;
    crate::ident::lemma_decode32_encode32(e, namesz);
    crate::ident::lemma_decode32_encode32(e, descsz);
    crate::ident::lemma_decode32_encode32(e, note_type);
    assert(window(data, 0, 4) =~= e.encode32(namesz));
    assert(window(data, 4, 4) =~= e.encode32(descsz));
    assert(window(data, 8, 4) =~= e.encode32(note_type));
    let name_end = 12 + namesz as int;
    let desc_start = name_end + pad4(namesz as int);
    let desc_end = desc_start + descsz as int;
    assert(data.len() == desc_end + pad4(descsz as int));
    assert(data.subrange(12, name_end) =~= name + seq![0u8]);
    assert(note_name_bytes(name + seq![0u8]) =~= name);
    assert(data.subrange(desc_start, desc_end) =~= desc);
    assert(notes_from(data, e, desc_end + pad4(descsz as int)) == Ok::<Seq<NoteModel>, ()>(
        Seq::empty(),
    ));
    assert(seq![(decode_utf8(name), note_type, desc)] + Seq::<NoteModel>::empty() =~= seq![
        (decode_utf8(name), note_type, desc),
    ]);
}

} // verus!

//! A parser, editor, and builder for ELF executable images.
//!
//! ELF has no relative virtual address, so the crate addresses image bytes by
//! the image-relative offset `ioff = vaddr - image_base`.

pub mod builder;
pub mod dynamic;
pub mod elf;
pub mod elf_file;
pub mod error;
pub mod header;
pub mod ident;
mod parse_utils;
pub mod notes;
pub mod program;
pub mod reloc;
pub mod section;
pub mod strtab;
pub mod symbol;
pub mod text;
pub mod tls;
pub mod validation;
pub mod reader;

pub use builder::ElfBuilder;
pub use dynamic::{DynTag, DynamicEntry, DynamicTable};
pub use elf::{ElfImage, Layout};
pub use elf_file::ElfFile;
pub use error::{Error, ErrorContext, ErrorKind, Result};
pub use header::{ElfHeader, ElfHeaders, ElfType, Machine};
pub use ident::{ElfClass, ElfIdent, Endian, OsAbi};
pub use reader::{ReadAt, SliceReader, VecReader};
pub use notes::Note;
pub use program::{ProgramHeader, Segment, SegmentFlags, SegmentType};
pub use strtab::StringTable;
pub use tls::TlsInfo;
pub use symbol::{Symbol, SymbolBind, SymbolTable, SymbolType, SymbolVisibility};
pub use reloc::{RelocKind, RelocationEntry, RelocationSection};
pub use section::{Section, SectionFlags, SectionHeader, SectionType};

use vstd::prelude::*;

verus! {

/// Truncates a 64-bit field to its 32-bit on-disk width for an ELF32 object.
pub(crate) fn low32(value: u64) -> (res: u32)
    ensures
        res == value as u32,
{
    value as u32
}

} // verus!

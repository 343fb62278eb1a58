//! ELF thread-local storage metadata.
//!
//! The `PT_TLS` program header describes the initialization image for
//! thread-local storage. [`TlsInfo`] captures that image without copying its
//! bytes.

use vstd::prelude::*;

use crate::program::ProgramHeader;

verus! {

/// Thread-local storage layout derived from a `PT_TLS` segment.
#[derive(Debug, Clone, Copy, PartialEq, Eq, Hash, Structural)]
pub struct TlsInfo {
    /// The virtual address of the initialization image.
    pub template_vaddr: u64,
    /// The number of initialized file bytes in the image.
    pub file_size: u64,
    /// The total size of the per-thread storage.
    pub mem_size: u64,
    /// The required alignment of the storage.
    pub align: u64,
}

/// The thread-local storage layout a `PT_TLS` program header describes.
pub open spec fn tls_of(header: ProgramHeader) -> TlsInfo {
    TlsInfo {
        template_vaddr: header.vaddr,
        file_size: header.filesz,
        mem_size: header.memsz,
        align: header.align,
    }
}

impl TlsInfo {
    /// Builds thread-local storage metadata from a `PT_TLS` program header.
    pub fn from_header(header: &ProgramHeader) -> (res: Self)
        ensures
            res == tls_of(*header),
    {
        TlsInfo {
            template_vaddr: header.vaddr,
            file_size: header.filesz,
            mem_size: header.memsz,
            align: header.align,
        }
    }

    /// Returns the virtual address of the initialization image.
    pub fn template_vaddr(&self) -> (res: u64)
        ensures
            res == self.template_vaddr,
    {
        self.template_vaddr
    }

    /// Returns the number of initialized file bytes.
    pub fn file_size(&self) -> (res: u64)
        ensures
            res == self.file_size,
    {
        self.file_size
    }

    /// Returns the total per-thread storage size.
    pub fn mem_size(&self) -> (res: u64)
        ensures
            res == self.mem_size,
    {
        self.mem_size
    }

    /// Returns the number of zero-filled bytes after the initialized image.
    ///
    /// The result is zero when the image claims more file bytes than memory
    /// bytes.
    pub fn zero_fill_size(&self) -> (res: u64)
        ensures
            self.mem_size >= self.file_size ==> res == self.mem_size - self.file_size,
            self.mem_size < self.file_size ==> res == 0,
    {
        self.mem_size.saturating_sub(self.file_size)
    }

    /// Returns the required alignment of the storage.
    pub fn align(&self) -> (res: u64)
        ensures
            res == self.align,
    {
        self.align
    }
}

} // verus!

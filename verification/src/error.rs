//! Error types for ELF parsing, editing, and writing.
//!
//! Every recoverable failure returns an [`Error`]. An error carries an
//! [`ErrorKind`] and optional [`ErrorContext`] that records a file offset, a
//! virtual address, or a structure name.

use vstd::prelude::*;

use crate::text::{dec_text, format_dec, format_hex, hex_text, join};

verus! {

/// Result type alias for ELF operations.
pub type Result<T> = core::result::Result<T, Error>;

/// Context about where an error occurred.
#[derive(Debug, Clone)]
pub struct ErrorContext {
    offset: Option<u64>,
    vaddr: Option<u64>,
    structure: Option<String>,
}

impl Default for ErrorContext {
    fn default() -> (res: Self)
        ensures
            res.offset_spec() is None,
            res.vaddr_spec() is None,
            res.structure_spec() is None,
    {
        ErrorContext { offset: None, vaddr: None, structure: None }
    }
}

impl ErrorContext {
    /// The recorded file offset.
    pub closed spec fn offset_spec(&self) -> Option<u64> {
        self.offset
    }

    /// The recorded virtual address.
    pub closed spec fn vaddr_spec(&self) -> Option<u64> {
        self.vaddr
    }

    /// The recorded structure name.
    pub closed spec fn structure_spec(&self) -> Option<Seq<char>> {
        match self.structure {
            Some(s) => Some(s@),
            None => None,
        }
    }

    /// Records a file offset in the context.
    pub fn at_offset(self, offset: u64) -> (res: Self)
        ensures
            res.offset_spec() == Some(offset),
            res.vaddr_spec() == self.vaddr_spec(),
            res.structure_spec() == self.structure_spec(),
    {
        let mut ctx = self;
        ctx.offset = Some(offset);
        ctx
    }

    /// Records a virtual address in the context.
    pub fn at_vaddr(self, vaddr: u64) -> (res: Self)
        ensures
            res.vaddr_spec() == Some(vaddr),
            res.offset_spec() == self.offset_spec(),
            res.structure_spec() == self.structure_spec(),
    {
        let mut ctx = self;
        ctx.vaddr = Some(vaddr);
        ctx
    }

    /// Records a structure name in the context.
    pub fn in_structure(self, name: &str) -> (res: Self)
        ensures
            res.structure_spec() == Some(name@),
            res.offset_spec() == self.offset_spec(),
            res.vaddr_spec() == self.vaddr_spec(),
    {
        let mut ctx = self;
        ctx.structure = Some(name.to_owned());
        ctx
    }

    /// Returns the recorded file offset.
    pub fn offset(&self) -> (res: Option<u64>)
        ensures
            res == self.offset_spec(),
    {
        self.offset
    }

    /// Returns the recorded virtual address.
    pub fn vaddr(&self) -> (res: Option<u64>)
        ensures
            res == self.vaddr_spec(),
    {
        self.vaddr
    }

    /// Returns the recorded structure name.
    pub fn structure(&self) -> (res: Option<&str>)
        ensures
            match res {
                Some(s) => self.structure_spec() == Some(s@),
                None => self.structure_spec() is None,
            },
    {
        match &self.structure {
            Some(s) => Some(s.as_str()),
            None => None,
        }
    }
}

/// The kind of failure that occurred.
#[derive(Debug)]
#[non_exhaustive]
pub enum ErrorKind {
    /// The ELF magic number was not `\x7fELF`.
    InvalidMagic,
    /// The `EI_CLASS` byte named an unknown class.
    InvalidClass(u8),
    /// The `EI_DATA` byte named an unknown data encoding.
    InvalidDataEncoding(u8),
    /// The `e_type` field named an unsupported object type.
    InvalidType(u16),
    /// The `e_machine` field named an unsupported machine.
    UnsupportedMachine(u16),
    /// A buffer was smaller than the required structure.
    BufferTooSmall {
        /// Number of bytes the structure requires.
        expected: usize,
        /// Number of bytes the buffer holds.
        actual: usize,
    },
    /// A section was malformed.
    InvalidSection(String),
    /// A file offset fell outside the readable range.
    OffsetOutOfBounds {
        /// The requested offset.
        offset: u64,
        /// The size of the readable range.
        size: u64,
    },
    /// A virtual address had no image mapping.
    InvalidVaddr(u64),
    /// A byte sequence was not valid UTF-8.
    InvalidUtf8,
    /// A failure with a free-form message.
    Generic(String),
}

/// A recoverable ELF error with optional location context.
#[derive(Debug)]
pub struct Error {
    kind: ErrorKind,
    context: Option<ErrorContext>,
}

impl Error {
    /// The error kind.
    pub closed spec fn kind_spec(&self) -> ErrorKind {
        self.kind
    }

    /// The location context.
    pub closed spec fn context_spec(&self) -> Option<ErrorContext> {
        self.context
    }

    /// Creates an error from a kind with no context.
    pub fn new(kind: ErrorKind) -> (res: Self)
        ensures
            res.kind_spec() == kind,
            res.context_spec() is None,
    {
        Error { kind, context: None }
    }

    /// Attaches location context to the error.
    pub fn with_context(self, context: ErrorContext) -> (res: Self)
        ensures
            res.kind_spec() == self.kind_spec(),
            res.context_spec() == Some(context),
    {
        Error { kind: self.kind, context: Some(context) }
    }

    fn take_context(context: Option<ErrorContext>) -> (res: ErrorContext)
        ensures
            context matches Some(c) ==> res == c,
            context is None ==> res.offset_spec() is None && res.vaddr_spec() is None
                && res.structure_spec() is None,
    {
        match context {
            Some(c) => c,
            None => ErrorContext::default(),
        }
    }

    /// Attaches a file offset to the error context.
    pub fn at_offset(self, offset: u64) -> (res: Self)
        ensures
            res.kind_spec() == self.kind_spec(),
            res.context_spec() matches Some(c) && c.offset_spec() == Some(offset) && match self.context_spec() {
                Some(old) => c.vaddr_spec() == old.vaddr_spec() && c.structure_spec() == old.structure_spec(),
                None => c.vaddr_spec() is None && c.structure_spec() is None,
            },
    {
        let ctx = Self::take_context(self.context);
        Error { kind: self.kind, context: Some(ctx.at_offset(offset)) }
    }

    /// Attaches a virtual address to the error context.
    pub fn at_vaddr(self, vaddr: u64) -> (res: Self)
        ensures
            res.kind_spec() == self.kind_spec(),
            res.context_spec() matches Some(c) && c.vaddr_spec() == Some(vaddr) && match self.context_spec() {
                Some(old) => c.offset_spec() == old.offset_spec() && c.structure_spec() == old.structure_spec(),
                None => c.offset_spec() is None && c.structure_spec() is None,
            },
    {
        let ctx = Self::take_context(self.context);
        Error { kind: self.kind, context: Some(ctx.at_vaddr(vaddr)) }
    }

    /// Attaches a structure name to the error context.
    pub fn in_structure(self, name: &str) -> (res: Self)
        ensures
            res.kind_spec() == self.kind_spec(),
            res.context_spec() matches Some(c) && c.structure_spec() == Some(name@) && match self.context_spec() {
                Some(old) => c.offset_spec() == old.offset_spec() && c.vaddr_spec() == old.vaddr_spec(),
                None => c.offset_spec() is None && c.vaddr_spec() is None,
            },
    {
        let ctx = Self::take_context(self.context);
        Error { kind: self.kind, context: Some(ctx.in_structure(name)) }
    }

    /// Returns the error kind.
    pub fn kind(&self) -> (res: &ErrorKind)
        ensures
            *res == self.kind_spec(),
    {
        &self.kind
    }

    /// Returns the location context when one is present.
    pub fn context(&self) -> (res: Option<&ErrorContext>)
        ensures
            match res {
                Some(c) => self.context_spec() == Some(*c),
                None => self.context_spec() is None,
            },
    {
        match &self.context {
            Some(c) => Some(c),
            None => None,
        }
    }

    /// Creates an [`ErrorKind::InvalidMagic`] error.
    pub fn invalid_magic() -> (res: Self)
        ensures
            res.kind_spec() == ErrorKind::InvalidMagic,
            res.context_spec() is None,
    {
        Self::new(ErrorKind::InvalidMagic)
    }

    /// Creates an [`ErrorKind::InvalidClass`] error.
    pub fn invalid_class(class: u8) -> (res: Self)
        ensures
            res.kind_spec() == ErrorKind::InvalidClass(class),
            res.context_spec() is None,
    {
        Self::new(ErrorKind::InvalidClass(class))
    }

    /// Creates an [`ErrorKind::InvalidDataEncoding`] error.
    pub fn invalid_data_encoding(data: u8) -> (res: Self)
        ensures
            res.kind_spec() == ErrorKind::InvalidDataEncoding(data),
            res.context_spec() is None,
    {
        Self::new(ErrorKind::InvalidDataEncoding(data))
    }

    /// Creates an [`ErrorKind::InvalidType`] error.
    pub fn invalid_type(object_type: u16) -> (res: Self)
        ensures
            res.kind_spec() == ErrorKind::InvalidType(object_type),
            res.context_spec() is None,
    {
        Self::new(ErrorKind::InvalidType(object_type))
    }

    /// Creates an [`ErrorKind::UnsupportedMachine`] error.
    pub fn unsupported_machine(machine: u16) -> (res: Self)
        ensures
            res.kind_spec() == ErrorKind::UnsupportedMachine(machine),
            res.context_spec() is None,
    {
        Self::new(ErrorKind::UnsupportedMachine(machine))
    }

    /// Creates an [`ErrorKind::BufferTooSmall`] error.
    pub fn buffer_too_small(expected: usize, actual: usize) -> (res: Self)
        ensures
            res.kind_spec() == (ErrorKind::BufferTooSmall { expected, actual }),
            res.context_spec() is None,
    {
        Self::new(ErrorKind::BufferTooSmall { expected, actual })
    }

    /// Creates an [`ErrorKind::InvalidSection`] error.
    pub fn invalid_section(message: &str) -> (res: Self)
        ensures
            res.kind_spec() matches ErrorKind::InvalidSection(m) && m@ == message@,
            res.context_spec() is None,
    {
        Self::new(ErrorKind::InvalidSection(message.to_owned()))
    }

    /// Creates an [`ErrorKind::OffsetOutOfBounds`] error.
    pub fn offset_out_of_bounds(offset: u64, size: u64) -> (res: Self)
        ensures
            res.kind_spec() == (ErrorKind::OffsetOutOfBounds { offset, size }),
            res.context_spec() is None,
    {
        Self::new(ErrorKind::OffsetOutOfBounds { offset, size })
    }

    /// Creates an [`ErrorKind::InvalidVaddr`] error.
    pub fn invalid_vaddr(vaddr: u64) -> (res: Self)
        ensures
            res.kind_spec() == ErrorKind::InvalidVaddr(vaddr),
            res.context_spec() is None,
    {
        Self::new(ErrorKind::InvalidVaddr(vaddr))
    }

    /// Creates an [`ErrorKind::InvalidUtf8`] error.
    pub fn invalid_utf8() -> (res: Self)
        ensures
            res.kind_spec() == ErrorKind::InvalidUtf8,
            res.context_spec() is None,
    {
        Self::new(ErrorKind::InvalidUtf8)
    }

    /// Creates an [`ErrorKind::Generic`] error.
    pub fn generic(message: &str) -> (res: Self)
        ensures
            res.kind_spec() matches ErrorKind::Generic(m) && m@ == message@,
            res.context_spec() is None,
    {
        Self::new(ErrorKind::Generic(message.to_owned()))
    }
}

/// The message of an error kind.
pub open spec fn kind_text(k: ErrorKind) -> Seq<char> {
    match k {
        ErrorKind::InvalidMagic => "invalid ELF magic number"@,
        ErrorKind::InvalidClass(class) => "invalid ELF class "@ + hex_text(class as nat),
        ErrorKind::InvalidDataEncoding(data) => "invalid ELF data encoding "@ + hex_text(data as nat),
        ErrorKind::InvalidType(t) => "invalid ELF object type "@ + hex_text(t as nat),
        ErrorKind::UnsupportedMachine(m) => "unsupported ELF machine "@ + hex_text(m as nat),
        ErrorKind::BufferTooSmall { expected, actual } => "buffer too small: expected "@ + dec_text(
            expected as nat,
        ) + " bytes, found "@ + dec_text(actual as nat),
        ErrorKind::InvalidSection(message) => "invalid section: "@ + message@,
        ErrorKind::OffsetOutOfBounds { offset, size } => "offset "@ + hex_text(offset as nat)
            + " is out of bounds for size "@ + hex_text(size as nat),
        ErrorKind::InvalidVaddr(vaddr) => "virtual address "@ + hex_text(vaddr as nat)
            + " is not in the image"@,
        ErrorKind::InvalidUtf8 => "invalid UTF-8 in ELF string"@,
        ErrorKind::Generic(message) => message@,
    }
}

/// Message parts joined with `, `.
pub open spec fn join_parts(parts: Seq<Seq<char>>) -> Seq<char>
    decreases parts.len(),
{
    if parts.len() == 0 {
        Seq::empty()
    } else if parts.len() == 1 {
        parts[0]
    } else {
        join_parts(parts.drop_last()) + ", "@ + parts.last()
    }
}

/// The parts of a context's message: the structure, the file offset, and
/// the virtual address, each when recorded.
pub open spec fn context_parts(c: ErrorContext) -> Seq<Seq<char>> {
    let s = match c.structure_spec() {
        Some(name) => seq!["in "@ + name],
        None => Seq::empty(),
    };
    let o = match c.offset_spec() {
        Some(offset) => seq!["at file offset "@ + hex_text(offset as nat)],
        None => Seq::empty(),
    };
    let v = match c.vaddr_spec() {
        Some(vaddr) => seq!["at virtual address "@ + hex_text(vaddr as nat)],
        None => Seq::empty(),
    };
    s + o + v
}

/// The message of an error: its kind's message, then the context in
/// parentheses when there is one.
pub open spec fn error_text(e: Error) -> Seq<char> {
    match e.context_spec() {
        Some(c) => kind_text(e.kind_spec()) + " ("@ + join_parts(context_parts(c)) + ")"@,
        None => kind_text(e.kind_spec()),
    }
}

/// Appends one message part, after a comma when parts came before it.
fn push_part(out: String, any: bool, parts: Ghost<Seq<Seq<char>>>, part: String) -> (res: String)
    requires
        out@ == join_parts(parts@),
        any == (parts@.len() > 0),
    ensures
        res@ == join_parts(parts@.push(part@)),
{
    proof {
        assert(parts@.push(part@).drop_last() =~= parts@);
    }
    if !any {
        part
    } else {
        let head = join(out.as_str(), ", ");
        join(head.as_str(), part.as_str())
    }
}

impl ErrorKind {
    /// Returns the error kind's message.
    pub fn to_string(&self) -> (res: String)
        ensures
            res@ == kind_text(*self),
    {
        match self {
            ErrorKind::InvalidMagic => "invalid ELF magic number".to_owned(),
            ErrorKind::InvalidClass(class) => join(
                "invalid ELF class ",
                format_hex(*class as u64).as_str(),
            ),
            ErrorKind::InvalidDataEncoding(data) => join(
                "invalid ELF data encoding ",
                format_hex(*data as u64).as_str(),
            ),
            ErrorKind::InvalidType(object_type) => join(
                "invalid ELF object type ",
                format_hex(*object_type as u64).as_str(),
            ),
            ErrorKind::UnsupportedMachine(machine) => join(
                "unsupported ELF machine ",
                format_hex(*machine as u64).as_str(),
            ),
            ErrorKind::BufferTooSmall { expected, actual } => {
                let head = join("buffer too small: expected ", format_dec(*expected as u64).as_str());
                let middle = join(head.as_str(), " bytes, found ");
                join(middle.as_str(), format_dec(*actual as u64).as_str())
            },
            ErrorKind::InvalidSection(message) => join("invalid section: ", message.as_str()),
            ErrorKind::OffsetOutOfBounds { offset, size } => {
                let head = join("offset ", format_hex(*offset).as_str());
                let middle = join(head.as_str(), " is out of bounds for size ");
                join(middle.as_str(), format_hex(*size).as_str())
            },
            ErrorKind::InvalidVaddr(vaddr) => {
                let head = join("virtual address ", format_hex(*vaddr).as_str());
                join(head.as_str(), " is not in the image")
            },
            ErrorKind::InvalidUtf8 => "invalid UTF-8 in ELF string".to_owned(),
            ErrorKind::Generic(message) => message.clone(),
        }
    }
}

impl ErrorContext {
    /// Returns the context's message: the structure, the file offset, and the
    /// virtual address that are recorded, separated by commas.
    pub fn to_string(&self) -> (res: String)
        ensures
            res@ == join_parts(context_parts(*self)),
    {
        let mut out = String::new();
        let mut any = false;
        let ghost mut parts: Seq<Seq<char>> = Seq::empty();
        match &self.structure {
            Some(name) => {
                let part = join("in ", name.as_str());
                out = push_part(out, any, Ghost(parts), part);
                proof {
                    parts = parts.push("in "@ + name@);
                }
                any = true;
            },
            None => {},
        }
        match self.offset {
            Some(offset) => {
                let part = join("at file offset ", format_hex(offset).as_str());
                out = push_part(out, any, Ghost(parts), part);
                proof {
                    parts = parts.push("at file offset "@ + hex_text(offset as nat));
                }
                any = true;
            },
            None => {},
        }
        match self.vaddr {
            Some(vaddr) => {
                let part = join("at virtual address ", format_hex(vaddr).as_str());
                out = push_part(out, any, Ghost(parts), part);
                proof {
                    parts = parts.push("at virtual address "@ + hex_text(vaddr as nat));
                }
            },
            None => {},
        }
        assert(parts =~= context_parts(*self));
        out
    }
}

impl Error {
    /// Returns the error's message: the kind's message, then the context in
    /// parentheses when there is one.
    pub fn to_string(&self) -> (res: String)
        ensures
            res@ == error_text(*self),
    {
        let kind = self.kind.to_string();
        match &self.context {
            Some(context) => {
                let head = join(kind.as_str(), " (");
                let middle = join(head.as_str(), context.to_string().as_str());
                join(middle.as_str(), ")")
            },
            None => kind,
        }
    }
}

impl From<ErrorKind> for Error {
    fn from(kind: ErrorKind) -> (res: Self)
        ensures
            res.kind_spec() == kind,
            res.context_spec() is None,
    {
        Error::new(kind)
    }
}

impl vstd::std_specs::convert::FromSpecImpl<ErrorKind> for Error {
    open spec fn obeys_from_spec() -> bool {
        true
    }

    closed spec fn from_spec(kind: ErrorKind) -> Self {
        Error { kind, context: None }
    }
}

} // verus!

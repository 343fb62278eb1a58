//! Positional reading of ELF byte sources.
//!
//! [`ReadAt`] reads bytes at an absolute offset without a shared cursor. Every
//! multi-byte helper takes an [`Endian`] because ELF records its byte order at
//! run time.

use vstd::prelude::*;

use crate::error::{Error, ErrorKind, Result};
use crate::ident::Endian;

verus! {

/// The number of bytes `contents` holds at and after `offset`.
pub open spec fn available(contents: Seq<u8>, offset: int) -> int {
    if 0 <= offset < contents.len() {
        contents.len() - offset
    } else {
        0
    }
}

/// Whether `contents` holds `len` bytes starting at `offset`; an empty range
/// is held anywhere.
pub open spec fn in_range(contents: Seq<u8>, offset: int, len: int) -> bool {
    len == 0 || (0 <= offset && 0 <= len && offset + len <= contents.len())
}

/// The `len` bytes of `contents` starting at `offset`.
pub open spec fn window(contents: Seq<u8>, offset: int, len: int) -> Seq<u8> {
    Seq::new(len as nat, |i: int| contents[offset + i])
}

/// The smaller of two integers.
pub open spec fn min_int(a: int, b: int) -> int {
    if a <= b {
        a
    } else {
        b
    }
}

/// Reads bytes from an ELF source at absolute offsets.
///
/// An implementation can return fewer bytes than the buffer holds. The
/// default helpers repeat reads when they need an exact range.
///
/// The contracts speak of a source through [`ReadAt::contents`] only when it
/// declares, by [`ReadAt::reads_fully`], that its reads follow those bytes;
/// of any other source they state nothing about the bytes read.
pub trait ReadAt {
    /// The bytes the source holds.
    open spec fn contents(&self) -> Seq<u8> {
        Seq::empty()
    }

    /// Whether every read returns the bytes of [`ReadAt::contents`] at the
    /// offset, as many as the source holds there up to the buffer's length,
    /// and never fails.
    open spec fn reads_fully(&self) -> bool {
        false
    }

    /// Reads bytes at `offset` into `buf` and returns how many it read.
    fn read_at(&self, offset: u64, buf: &mut [u8]) -> (res: Result<usize>)
        ensures
            final(buf)@.len() == old(buf)@.len(),
            self.reads_fully() ==> {
                &&& self.contents().len() <= u64::MAX
                &&& res == Ok::<usize, Error>(
                    min_int(available(self.contents(), offset as int), old(buf)@.len() as int) as usize,
                )
                &&& res matches Ok(n) && final(buf)@.subrange(0, n as int) == window(
                    self.contents(),
                    offset as int,
                    n as int,
                )
            },
    ;

    /// Returns the total size of the source when it is known.
    fn size(&self) -> (res: Option<u64>)
        ensures
            self.reads_fully() ==> (res matches Some(s) ==> s == self.contents().len()),
    {
        None
    }

    /// Reads exactly enough bytes to fill `buf`.
    fn read_exact_at(&self, offset: u64, buf: &mut [u8]) -> (res: Result<()>)
        ensures
            final(buf)@.len() == old(buf)@.len(),
            self.reads_fully() ==> {
                &&& res is Ok <==> in_range(self.contents(), offset as int, old(buf)@.len() as int)
                &&& res is Ok ==> final(buf)@ == window(
                    self.contents(),
                    offset as int,
                    old(buf)@.len() as int,
                )
                &&& res matches Err(e) ==> e.kind_spec() == (ErrorKind::BufferTooSmall {
                    expected: old(buf)@.len() as usize,
                    actual: available(self.contents(), offset as int) as usize,
                })
            },
    {
        let ghost full = self.reads_fully();
        let ghost c = self.contents();
        let expected = buf.len();
        let mut total: usize = 0;
        while total < expected
            invariant
                buf@.len() == expected,
                expected == old(buf)@.len(),
                total <= expected,
                full == self.reads_fully(),
                c == self.contents(),
                full ==> in_range(c, offset as int, total as int),
                full ==> buf@.subrange(0, total as int) == window(c, offset as int, total as int),
                full && total > 0 ==> c.len() <= u64::MAX,
            decreases expected - total,
        {
            let current = match offset.checked_add(total as u64) {
                Some(c) => c,
                None => {
                    proof {
                        if full {
                            assert(offset + expected > c.len());
                        }
                    }
                    return Err(Error::offset_out_of_bounds(offset, expected as u64));
                },
            };
            let remaining = expected - total;
            let mut chunk: Vec<u8> = vec![0u8; remaining];
            let count = match self.read_at(current, chunk.as_mut_slice()) {
                Ok(c) => c,
                Err(e) => return Err(e),
            };
            if count == 0 {
                proof {
                    if full {
                        assert(available(c, current as int) == 0);
                        assert(total == available(c, offset as int));
                    }
                }
                return Err(Error::buffer_too_small(expected, total));
            }
            if count > expected - total {
                return Err(
                    Error::generic("ReadAt::read_at reported more bytes than the supplied buffer"),
                );
            }
            let ghost before = buf@;
            let mut k: usize = 0;
            while k < count
                invariant
                    k <= count,
                    total + count <= expected,
                    buf@.len() == expected,
                    chunk@.len() >= count,
                    buf@.subrange(0, total as int) == before.subrange(0, total as int),
                    forall|j: int| 0 <= j < k ==> buf@[total + j] == chunk@[j],
                decreases count - k,
            {
                buf[total + k] = chunk[k];
                k = k + 1;
            }
            proof {
                if full {
                    assert(chunk@.subrange(0, count as int) == window(c, current as int, count as int));
                    assert forall|j: int| 0 <= j < total + count implies buf@[j] == c[offset + j] by {
                        if j < total {
                            assert(buf@.subrange(0, total as int)[j] == window(
                                c,
                                offset as int,
                                total as int,
                            )[j]);
                        } else {
                            assert(chunk@.subrange(0, count as int)[j - total] == window(
                                c,
                                current as int,
                                count as int,
                            )[j - total]);
                        }
                    }
                    assert(buf@.subrange(0, (total + count) as int) =~= window(
                        c,
                        offset as int,
                        (total + count) as int,
                    ));
                }
            }
            total = total + count;
        }
        proof {
            assert(buf@ =~= buf@.subrange(0, total as int));
        }
        Ok(())
    }

    /// Reads a `u16` at `offset` in `endian` byte order.
    fn read_u16_at(&self, offset: u64, endian: Endian) -> (res: Result<u16>)
        ensures
            self.reads_fully() ==> (res is Ok <==> in_range(self.contents(), offset as int, 2)),
            self.reads_fully() ==> (res matches Ok(v) ==> v == endian.decode16(
                window(self.contents(), offset as int, 2),
            )),
    {
        let mut buf = [0u8; 2];
        match self.read_exact_at(offset, &mut buf) {
            Ok(()) => {},
            Err(e) => return Err(e),
        }
        Ok(endian.u16(buf))
    }

    /// Reads a `u32` at `offset` in `endian` byte order.
    fn read_u32_at(&self, offset: u64, endian: Endian) -> (res: Result<u32>)
        ensures
            self.reads_fully() ==> (res is Ok <==> in_range(self.contents(), offset as int, 4)),
            self.reads_fully() ==> (res matches Ok(v) ==> v == endian.decode32(
                window(self.contents(), offset as int, 4),
            )),
    {
        let mut buf = [0u8; 4];
        match self.read_exact_at(offset, &mut buf) {
            Ok(()) => {},
            Err(e) => return Err(e),
        }
        Ok(endian.u32(buf))
    }

    /// Reads a `u64` at `offset` in `endian` byte order.
    fn read_u64_at(&self, offset: u64, endian: Endian) -> (res: Result<u64>)
        ensures
            self.reads_fully() ==> (res is Ok <==> in_range(self.contents(), offset as int, 8)),
            self.reads_fully() ==> (res matches Ok(v) ==> v == endian.decode64(
                window(self.contents(), offset as int, 8),
            )),
    {
        let mut buf = [0u8; 8];
        match self.read_exact_at(offset, &mut buf) {
            Ok(()) => {},
            Err(e) => return Err(e),
        }
        Ok(endian.u64(buf))
    }

    /// Reads an `i32` at `offset` in `endian` byte order.
    fn read_i32_at(&self, offset: u64, endian: Endian) -> (res: Result<i32>)
        ensures
            self.reads_fully() ==> (res is Ok <==> in_range(self.contents(), offset as int, 4)),
            self.reads_fully() ==> (res matches Ok(v) ==> v == endian.decode32(
                window(self.contents(), offset as int, 4),
            ) as i32),
    {
        let mut buf = [0u8; 4];
        match self.read_exact_at(offset, &mut buf) {
            Ok(()) => {},
            Err(e) => return Err(e),
        }
        Ok(endian.i32(buf))
    }

    /// Reads an `i64` at `offset` in `endian` byte order.
    fn read_i64_at(&self, offset: u64, endian: Endian) -> (res: Result<i64>)
        ensures
            self.reads_fully() ==> (res is Ok <==> in_range(self.contents(), offset as int, 8)),
            self.reads_fully() ==> (res matches Ok(v) ==> v == endian.decode64(
                window(self.contents(), offset as int, 8),
            ) as i64),
    {
        let mut buf = [0u8; 8];
        match self.read_exact_at(offset, &mut buf) {
            Ok(()) => {},
            Err(e) => return Err(e),
        }
        Ok(endian.i64(buf))
    }

    /// Reads `len` bytes at `offset` into an owned vector.
    ///
    /// The vector's storage is reserved first, and a failed reservation
    /// returns an error.
    fn read_bytes_at(&self, offset: u64, len: usize) -> (res: Result<Vec<u8>>)
        ensures
            self.reads_fully() ==> (res matches Ok(v) ==> in_range(
                self.contents(),
                offset as int,
                len as int,
            ) && v@ == window(self.contents(), offset as int, len as int)),
            self.reads_fully() && in_range(self.contents(), offset as int, len as int) ==> (
            res matches Err(e) ==> e.kind_spec() matches ErrorKind::Generic(m) && m@
                == "reader request is too large to allocate"@),
    {
        let mut buf: Vec<u8> = Vec::new();
        match buf.try_reserve(len) {
            Ok(()) => {},
            Err(_) => return Err(Error::generic("reader request is too large to allocate")),
        }
        buf.resize(len, 0u8);
        match self.read_exact_at(offset, buf.as_mut_slice()) {
            Ok(()) => {},
            Err(e) => return Err(e),
        }
        Ok(buf)
    }
}

/// A positional reader over a borrowed byte slice.
#[derive(Debug, Clone, Copy)]
pub struct SliceReader<'a> {
    data: &'a [u8],
}

/// Copies `min(data.len() - offset, buf.len())` bytes of `data` at `offset`
/// into `buf`, or nothing when `offset` lies past the end.
fn copy_available(data: &[u8], offset: u64, buf: &mut [u8]) -> (res: usize)
    ensures
        final(buf)@.len() == old(buf)@.len(),
        res == min_int(available(data@, offset as int), old(buf)@.len() as int),
        data@.len() <= u64::MAX,
        final(buf)@.subrange(0, res as int) == window(data@, offset as int, res as int),
{
    assert(data@.len() == data.len());
    if offset >= data.len() as u64 {
        assert(buf@.subrange(0, 0) =~= window(data@, offset as int, 0));
        return 0;
    }
    let start = offset as usize;
    let avail = data.len() - start;
    let count = if avail < buf.len() {
        avail
    } else {
        buf.len()
    };
    let mut k: usize = 0;
    while k < count
        invariant
            k <= count,
            count <= buf@.len(),
            buf@.len() == old(buf)@.len(),
            start as int + count as int <= data@.len(),
            data@.len() == data.len(),
            forall|j: int| 0 <= j < k ==> buf@[j] == data@[start + j],
        decreases count - k,
    {
        buf[k] = data[start + k];
        k = k + 1;
    }
    assert(buf@.subrange(0, count as int) =~= window(data@, offset as int, count as int));
    count
}

impl<'a> SliceReader<'a> {
    /// The bytes this reader reads.
    pub closed spec fn bytes_spec(&self) -> Seq<u8> {
        self.data@
    }

    /// Creates a reader over `data`.
    pub fn new(data: &'a [u8]) -> (res: Self)
        ensures
            res.bytes_spec() == data@,
    {
        SliceReader { data }
    }

    /// Returns the underlying bytes.
    pub fn as_bytes(&self) -> (res: &'a [u8])
        ensures
            res@ == self.bytes_spec(),
    {
        self.data
    }
}

impl<'a> ReadAt for SliceReader<'a> {
    open spec fn contents(&self) -> Seq<u8> {
        self.bytes_spec()
    }

    open spec fn reads_fully(&self) -> bool {
        true
    }

    fn read_at(&self, offset: u64, buf: &mut [u8]) -> (res: Result<usize>) {
        Ok(copy_available(self.data, offset, buf))
    }

    fn size(&self) -> (res: Option<u64>)
        ensures
            res == Some(self.bytes_spec().len() as u64),
    {
        Some(self.data.len() as u64)
    }
}

/// A positional reader that owns its byte vector.
#[derive(Debug, Clone)]
pub struct VecReader {
    data: Vec<u8>,
}

impl VecReader {
    /// The bytes this reader reads.
    pub closed spec fn bytes_spec(&self) -> Seq<u8> {
        self.data@
    }

    /// Creates a reader that owns `data`.
    pub fn new(data: Vec<u8>) -> (res: Self)
        ensures
            res.bytes_spec() == data@,
    {
        VecReader { data }
    }

    /// Returns the underlying bytes.
    pub fn as_bytes(&self) -> (res: &[u8])
        ensures
            res@ == self.bytes_spec(),
    {
        self.data.as_slice()
    }

    /// Consumes the reader and returns the owned bytes.
    pub fn into_bytes(self) -> (res: Vec<u8>)
        ensures
            res@ == self.bytes_spec(),
    {
        self.data
    }
}

impl ReadAt for VecReader {
    open spec fn contents(&self) -> Seq<u8> {
        self.bytes_spec()
    }

    open spec fn reads_fully(&self) -> bool {
        true
    }

    fn read_at(&self, offset: u64, buf: &mut [u8]) -> (res: Result<usize>) {
        Ok(copy_available(self.data.as_slice(), offset, buf))
    }

    fn size(&self) -> (res: Option<u64>)
        ensures
            res == Some(self.bytes_spec().len() as u64),
    {
        Some(self.data.len() as u64)
    }
}

} // verus!

verus! {

/// The 16-bit field at `off` in byte order `e`.
pub open spec fn field16(c: Seq<u8>, e: Endian, off: int) -> u16 {
    e.decode16(window(c, off, 2))
}

/// The 32-bit field at `off` in byte order `e`.
pub open spec fn field32(c: Seq<u8>, e: Endian, off: int) -> u32 {
    e.decode32(window(c, off, 4))
}

/// The 64-bit field at `off` in byte order `e`.
pub open spec fn field64(c: Seq<u8>, e: Endian, off: int) -> u64 {
    e.decode64(window(c, off, 8))
}

} // verus!

//! ELF string table access.
//!
//! An ELF string table is a byte block of NUL-terminated strings. A name is a
//! byte offset into the block. [`StringTable`] borrows the block and resolves
//! offsets to string slices.

use vstd::prelude::*;
use vstd::utf8::{decode_utf8, valid_utf8};

verus! {

/// The index of the first NUL byte in `t` at or after `i`, or `t.len()`.
pub open spec fn first_nul_from(t: Seq<u8>, i: int) -> int
    decreases t.len() - i,
{
    if i >= t.len() {
        t.len() as int
    } else if t[i] == 0 {
        i
    } else {
        first_nul_from(t, i + 1)
    }
}

/// The bytes of the NUL-terminated string that starts at `off` in `data`,
/// without the terminator; the string runs to the end when no NUL follows.
pub open spec fn c_string_at(data: Seq<u8>, off: int) -> Seq<u8> {
    data.subrange(off, first_nul_from(data, off))
}

/// The string at offset `off` of a string table, when `off` lies inside the
/// table and the bytes are valid UTF-8.
pub open spec fn string_at(data: Seq<u8>, off: int) -> Option<Seq<char>> {
    if off < 0 || off >= data.len() || !valid_utf8(c_string_at(data, off)) {
        None
    } else {
        Some(decode_utf8(c_string_at(data, off)))
    }
}

/// The string at `off`, or the empty string when there is none.
pub open spec fn string_or_empty(data: Seq<u8>, off: int) -> Seq<char> {
    match string_at(data, off) {
        Some(s) => s,
        None => Seq::empty(),
    }
}

/// A string table entry is the bytes from its offset up to the next NUL:
/// when the bytes `s` at offset `p.len()` hold no NUL and are followed by
/// one, the lookup there gives `s` decoded as UTF-8, and nothing when `s`
/// is not valid UTF-8.
pub proof fn lemma_string_at_entry(p: Seq<u8>, s: Seq<u8>, q: Seq<u8>)
    requires
        forall|k: int| 0 <= k < s.len() ==> s[k] != 0,
    ensures
        string_at(p + s + seq![0u8] + q, p.len() as int) == if valid_utf8(s) {
            Some(decode_utf8(s))
        } else {
            None::<Seq<char>>
        },
{
    let data = p + s + seq![0u8] + q;
    let off = p.len() as int;
    lemma_first_nul_bounds(data, off);
    let end = first_nul_from(data, off);
    assert(data[off + s.len()] == 0u8);
    assert forall|j: int| off <= j < off + s.len() implies data[j] != 0 by {
        assert(data[j] == s[j - off]);
    }
    assert(end == off + s.len());
    assert(c_string_at(data, off) =~= s);
}

/// `first_nul_from` lies between its start and the end of the sequence.
pub proof fn lemma_first_nul_bounds(t: Seq<u8>, i: int)
    requires
        0 <= i <= t.len(),
    ensures
        i <= first_nul_from(t, i) <= t.len(),
        forall|j: int| i <= j < first_nul_from(t, i) ==> t[j] != 0,
        first_nul_from(t, i) < t.len() ==> t[first_nul_from(t, i)] == 0,
    decreases t.len() - i,
{
    if i < t.len() && t[i] != 0 {
        lemma_first_nul_bounds(t, i + 1);
    }
}

/// Decodes UTF-8 bytes into a string slice.
///
/// Calls `core::str::from_utf8`, which accepts exactly the valid UTF-8 byte
/// sequences and returns a string whose bytes are the input; this contract
/// states that over `vstd`'s UTF-8 definitions.
#[verifier::external_body]
pub(crate) fn utf8_str(bytes: &[u8]) -> (res: Option<&str>)
    ensures
        res is Some <==> valid_utf8(bytes@),
        res matches Some(s) ==> s@ == decode_utf8(bytes@),
{
    core::str::from_utf8(bytes).ok()
}

/// A borrowed view over an ELF string table.
#[derive(Debug, Clone, Copy)]
pub struct StringTable<'a> {
    data: &'a [u8],
}

impl<'a> StringTable<'a> {
    /// The bytes of the table.
    pub closed spec fn bytes_spec(&self) -> Seq<u8> {
        self.data@
    }

    /// Creates a string table view over `data`.
    pub fn new(data: &'a [u8]) -> (res: Self)
        ensures
            res.bytes_spec() == data@,
    {
        StringTable { data }
    }

    /// Returns the string at `offset`.
    ///
    /// Returns `None` when the offset is out of range or the string is not
    /// valid UTF-8.
    pub fn get(&self, offset: usize) -> (res: Option<&'a str>)
        ensures
            match string_at(self.bytes_spec(), offset as int) {
                Some(s) => res matches Some(r) && r@ == s,
                None => res is None,
            },
    {
        if offset >= self.data.len() {
            return None;
        }
        let mut end = offset;
        while end < self.data.len() && self.data[end] != 0
            invariant
                offset <= end <= self.data@.len(),
                first_nul_from(self.data@, offset as int) == first_nul_from(self.data@, end as int),
            decreases self.data@.len() - end,
        {
            end = end + 1;
        }
        let bytes = vstd::slice::slice_subrange(self.data, offset, end);
        assert(bytes@ =~= c_string_at(self.data@, offset as int));
        utf8_str(bytes)
    }

    /// Returns the underlying bytes.
    pub fn as_bytes(&self) -> (res: &'a [u8])
        ensures
            res@ == self.bytes_spec(),
    {
        self.data
    }
}

} // verus!

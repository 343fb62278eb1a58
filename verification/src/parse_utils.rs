//! Fixed-size byte extraction for table decoding.
//!
//! The table parsers slice fixed-size arrays out of section bytes before they
//! decode them with an [`crate::ident::Endian`]. These helpers keep the bounds
//! checks in one place.

use vstd::prelude::*;

use crate::error::{Error, ErrorKind, Result};
use crate::reader::window;

verus! {

/// Saturating subtraction of naturals.
pub open spec fn sat_sub(a: int, b: int) -> int {
    if a >= b {
        a - b
    } else {
        0
    }
}

/// Extracts two bytes at `offset`.
pub fn array2(data: &[u8], offset: usize) -> (res: Result<[u8; 2]>)
    ensures
        offset + 2 <= data@.len() ==> (res matches Ok(a) && a@ == window(data@, offset as int, 2)),
        offset + 2 > data@.len() ==> (res matches Err(e) && e.kind_spec() == (ErrorKind::BufferTooSmall {
            expected: 2,
            actual: sat_sub(data@.len() as int, offset as int) as usize,
        })),
{
    if offset > data.len() || data.len() - offset < 2 {
        let actual = if data.len() >= offset { data.len() - offset } else { 0 };
        return Err(Error::buffer_too_small(2, actual));
    }
    let a = [data[offset], data[offset + 1]];
    assert(a@ =~= window(data@, offset as int, 2));
    Ok(a)
}

/// Extracts four bytes at `offset`.
pub fn array4(data: &[u8], offset: usize) -> (res: Result<[u8; 4]>)
    ensures
        offset + 4 <= data@.len() ==> (res matches Ok(a) && a@ == window(data@, offset as int, 4)),
        offset + 4 > data@.len() ==> (res matches Err(e) && e.kind_spec() == (ErrorKind::BufferTooSmall {
            expected: 4,
            actual: sat_sub(data@.len() as int, offset as int) as usize,
        })),
{
    if offset > data.len() || data.len() - offset < 4 {
        let actual = if data.len() >= offset { data.len() - offset } else { 0 };
        return Err(Error::buffer_too_small(4, actual));
    }
    let a = [data[offset], data[offset + 1], data[offset + 2], data[offset + 3]];
    assert(a@ =~= window(data@, offset as int, 4));
    Ok(a)
}

/// Extracts eight bytes at `offset`.
pub fn array8(data: &[u8], offset: usize) -> (res: Result<[u8; 8]>)
    ensures
        offset + 8 <= data@.len() ==> (res matches Ok(a) && a@ == window(data@, offset as int, 8)),
        offset + 8 > data@.len() ==> (res matches Err(e) && e.kind_spec() == (ErrorKind::BufferTooSmall {
            expected: 8,
            actual: sat_sub(data@.len() as int, offset as int) as usize,
        })),
{
    if offset > data.len() || data.len() - offset < 8 {
        let actual = if data.len() >= offset { data.len() - offset } else { 0 };
        return Err(Error::buffer_too_small(8, actual));
    }
    let a = [
        data[offset],
        data[offset + 1],
        data[offset + 2],
        data[offset + 3],
        data[offset + 4],
        data[offset + 5],
        data[offset + 6],
        data[offset + 7],
    ];
    assert(a@ =~= window(data@, offset as int, 8));
    Ok(a)
}

} // verus!

verus! {

/// Entry `index` of a table of whole `size`-byte entries lies inside it.
pub proof fn lemma_entry_in_table(len: int, size: int, index: int)
    requires
        size > 0,
        len >= 0,
        0 <= index < len / size,
    ensures
        0 <= index * size,
        index * size + size <= len,
{
    vstd::arithmetic::div_mod::lemma_fundamental_div_mod(len, size);
    vstd::arithmetic::mul::lemma_mul_inequality(index + 1, len / size, size);
    vstd::arithmetic::mul::lemma_mul_is_distributive_add_other_way(size, index, 1);
    vstd::arithmetic::mul::lemma_mul_is_commutative(size, len / size);
    vstd::arithmetic::mul::lemma_mul_nonnegative(index, size);
    vstd::arithmetic::div_mod::lemma_mod_pos_bound(len, size);
}

} // verus!

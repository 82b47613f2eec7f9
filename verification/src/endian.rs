//! Fixed-width little-endian byte codec: the substrate every record's
//! serialization builds on.
//!
//! Writers append to a growing buffer; readers take an explicit offset into
//! an immutable buffer and return `None` (not an error) when the requested
//! range exceeds the buffer, which callers treat as a truncated input.

use vstd::prelude::*;
use vstd::bytes::{
    spec_u16_from_le_bytes, spec_u16_to_le_bytes, spec_u64_from_le_bytes, spec_u64_to_le_bytes,
    u16_from_le_bytes, u16_to_le_bytes, u64_from_le_bytes, u64_to_le_bytes,
};
use vstd::slice::slice_subrange;

verus! {

/// Appends the 8-byte little-endian encoding of `value` to `buf`.
pub fn write_u64_le(value: u64, buf: &mut Vec<u8>)
    ensures
        final(buf)@ == old(buf)@ + spec_u64_to_le_bytes(value),
        final(buf)@.len() == old(buf)@.len() + 8,
{
    proof {
        vstd::bytes::lemma_auto_spec_u64_to_from_le_bytes();
    }
    let bytes = u64_to_le_bytes(value);
    buf.extend_from_slice(bytes.as_slice());
}

/// Appends the 2-byte little-endian encoding of `value` to `buf`.
pub fn write_u16_le(value: u16, buf: &mut Vec<u8>)
    ensures
        final(buf)@ == old(buf)@ + spec_u16_to_le_bytes(value),
        final(buf)@.len() == old(buf)@.len() + 2,
{
    proof {
        vstd::bytes::lemma_auto_spec_u16_to_from_le_bytes();
    }
    let bytes = u16_to_le_bytes(value);
    buf.extend_from_slice(bytes.as_slice());
}

/// Appends a single byte to `buf`.
pub fn write_u8(value: u8, buf: &mut Vec<u8>)
    ensures
        final(buf)@ == old(buf)@ + seq![value],
        final(buf)@.len() == old(buf)@.len() + 1,
{
    buf.push(value);
}

/// Appends `bytes` verbatim to `buf`.
pub fn write_bytes(bytes: &[u8], buf: &mut Vec<u8>)
    ensures
        final(buf)@ == old(buf)@ + bytes@,
        final(buf)@.len() == old(buf)@.len() + bytes@.len(),
{
    buf.extend_from_slice(bytes);
}

/// Reads a little-endian `u64` from `buf` at `offset`; `None` when the
/// 8-byte range does not fit in the buffer.
pub fn read_u64_le(buf: &[u8], offset: usize) -> (r: Option<u64>)
    ensures
        offset + 8 <= buf@.len() ==> r == Some(
            spec_u64_from_le_bytes(buf@.subrange(offset as int, offset as int + 8)),
        ),
        offset + 8 > buf@.len() ==> r is None,
{
    if buf.len() >= 8 && offset <= buf.len() - 8 {
        let window = slice_subrange(buf, offset, offset + 8);
        Some(u64_from_le_bytes(window))
    } else {
        None
    }
}

/// Reads a little-endian `u16` from `buf` at `offset`; `None` when the
/// 2-byte range does not fit in the buffer.
pub fn read_u16_le(buf: &[u8], offset: usize) -> (r: Option<u16>)
    ensures
        offset + 2 <= buf@.len() ==> r == Some(
            spec_u16_from_le_bytes(buf@.subrange(offset as int, offset as int + 2)),
        ),
        offset + 2 > buf@.len() ==> r is None,
{
    if buf.len() >= 2 && offset <= buf.len() - 2 {
        let window = slice_subrange(buf, offset, offset + 2);
        Some(u16_from_le_bytes(window))
    } else {
        None
    }
}

/// Reads the byte of `buf` at `offset`; `None` when `offset` is out of range.
pub fn read_u8(buf: &[u8], offset: usize) -> (r: Option<u8>)
    ensures
        offset < buf@.len() ==> r == Some(buf@[offset as int]),
        offset >= buf@.len() ==> r is None,
{
    if offset < buf.len() {
        Some(*vstd::slice::slice_index_get(buf, offset))
    } else {
        None
    }
}

/// Borrows the `len` bytes of `buf` starting at `offset`; `None` when the
/// range does not fit in the buffer.
pub fn read_bytes(buf: &[u8], offset: usize, len: usize) -> (r: Option<&[u8]>)
    ensures
        offset + len <= buf@.len() ==> {
            &&& r is Some
            &&& r->Some_0@ == buf@.subrange(offset as int, offset as int + len as int)
        },
        offset + len > buf@.len() ==> r is None,
{
    if len <= buf.len() && offset <= buf.len() - len {
        Some(slice_subrange(buf, offset, offset + len))
    } else {
        None
    }
}

} // verus!

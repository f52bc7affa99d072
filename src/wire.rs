//! Byte-level building blocks of the wire format: little-endian `u32`s and
//! length-prefixed fields.

use vstd::bytes::{
    lemma_auto_spec_u32_to_from_le_bytes, spec_u32_from_le_bytes, spec_u32_to_le_bytes,
    u32_from_le_bytes, u32_to_le_bytes,
};
use vstd::prelude::*;

verus! {

/// The `u32` stored little-endian in the four bytes of `s` starting at `pos`.
pub open spec fn u32_at(s: Seq<u8>, pos: int) -> u32 {
    spec_u32_from_le_bytes(s.subrange(pos, pos + 4))
}

/// The four little-endian bytes of `x`.
pub open spec fn le_bytes(x: u32) -> Seq<u8> {
    spec_u32_to_le_bytes(x)
}

/// A field on the wire: its length as a `u32`, then its bytes.
pub open spec fn field_bytes(body: Seq<u8>) -> Seq<u8> {
    le_bytes(body.len() as u32) + body
}

/// The field that starts at `pos` in `s`, with the position just past it;
/// `None` when `s` ends before the field does.
pub open spec fn field_at(s: Seq<u8>, pos: int) -> Option<(Seq<u8>, int)> {
    if 0 <= pos && pos + 4 <= s.len() && pos + 4 + u32_at(s, pos) <= s.len() {
        let end = pos + 4 + u32_at(s, pos);
        Some((s.subrange(pos + 4, end), end))
    } else {
        None
    }
}

pub proof fn lemma_le_bytes(x: u32)
    ensures
        le_bytes(x).len() == 4,
        spec_u32_from_le_bytes(le_bytes(x)) == x,
{
    lemma_auto_spec_u32_to_from_le_bytes();
    assert(spec_u32_to_le_bytes(x).len() == 4);
}

/// Reading a `u32` back from a sequence that holds its bytes at `pos`.
pub proof fn lemma_u32_at_le_bytes(s: Seq<u8>, pos: int, x: u32)
    requires
        0 <= pos,
        pos + 4 <= s.len(),
        s.subrange(pos, pos + 4) == le_bytes(x),
    ensures
        u32_at(s, pos) == x,
{
    lemma_le_bytes(x);
}

/// A field written at `pos` is read back whole, whatever follows it.
pub proof fn lemma_field_at_written(s: Seq<u8>, pos: int, body: Seq<u8>)
    requires
        0 <= pos,
        body.len() <= u32::MAX,
        pos + 4 + body.len() <= s.len(),
        s.subrange(pos, pos + 4 + body.len()) == field_bytes(body),
    ensures
        field_at(s, pos) == Some((body, pos + 4 + body.len())),
{
    lemma_le_bytes(body.len() as u32);
    assert(s.subrange(pos, pos + 4) == s.subrange(pos, pos + 4 + body.len()).subrange(0, 4));
    assert(field_bytes(body).subrange(0, 4) == le_bytes(body.len() as u32));
    lemma_u32_at_le_bytes(s, pos, body.len() as u32);
    assert(s.subrange(pos + 4, pos + 4 + body.len()) == s.subrange(
        pos,
        pos + 4 + body.len(),
    ).subrange(4, 4 + body.len() as int));
    assert(field_bytes(body).subrange(4, 4 + body.len() as int) == body);
}

/// Reads the `u32` stored little-endian at `pos` in `bytes`.
pub fn read_u32(bytes: &[u8], pos: usize) -> (r: u32)
    requires
        pos + 4 <= bytes@.len(),
    ensures
        r == u32_at(bytes@, pos as int),
{
    assert(bytes@.len() == bytes.len());
    let four = vstd::slice::slice_subrange(bytes, pos, pos + 4);
    u32_from_le_bytes(four)
}

/// Appends the four little-endian bytes of `x` to `out`.
pub fn write_u32(out: &mut Vec<u8>, x: u32)
    ensures
        final(out)@ == old(out)@ + le_bytes(x),
{
    let mut b = u32_to_le_bytes(x);
    out.append(&mut b);
}

} // verus!

//! Big-endian integers on the wire.

use vstd::prelude::*;

verus! {

/// The 16-bit value whose big-endian encoding is `hi`, `lo`.
pub open spec fn spec_u16_be(hi: u8, lo: u8) -> u16 {
    (hi as int * 256 + lo as int) as u16
}

/// The 32-bit value whose big-endian encoding is `b0`, `b1`, `b2`, `b3`.
pub open spec fn spec_u32_be(b0: u8, b1: u8, b2: u8, b3: u8) -> u32 {
    (b0 as int * 16777216 + b1 as int * 65536 + b2 as int * 256 + b3 as int) as u32
}

/// The big-endian encoding of a 16-bit value.
pub open spec fn spec_u16_bytes(x: u16) -> Seq<u8> {
    seq![(x as int / 256) as u8, (x as int % 256) as u8]
}

/// The big-endian encoding of a 32-bit value.
pub open spec fn spec_u32_bytes(x: u32) -> Seq<u8> {
    seq![
        (x as int / 16777216) as u8,
        (x as int / 65536 % 256) as u8,
        (x as int / 256 % 256) as u8,
        (x as int % 256) as u8,
    ]
}

/// The 16-bit big-endian value stored at `pos` in `buf`.
pub open spec fn spec_read_u16(buf: Seq<u8>, pos: int) -> u16
    recommends
        0 <= pos,
        pos + 2 <= buf.len(),
{
    spec_u16_be(buf[pos], buf[pos + 1])
}

/// The 32-bit big-endian value stored at `pos` in `buf`.
pub open spec fn spec_read_u32(buf: Seq<u8>, pos: int) -> u32
    recommends
        0 <= pos,
        pos + 4 <= buf.len(),
{
    spec_u32_be(buf[pos], buf[pos + 1], buf[pos + 2], buf[pos + 3])
}

/// Reads a big-endian 16-bit value at `pos`.
pub fn read_u16(buf: &[u8], pos: usize) -> (r: u16)
    requires
        pos + 2 <= buf@.len(),
    ensures
        r == spec_read_u16(buf@, pos as int),
{
    let hi: u16 = buf[pos] as u16;
    let lo: u16 = buf[pos + 1] as u16;
    hi * 256 + lo
}

/// Reads a big-endian 32-bit value at `pos`.
pub fn read_u32(buf: &[u8], pos: usize) -> (r: u32)
    requires
        pos + 4 <= buf@.len(),
    ensures
        r == spec_read_u32(buf@, pos as int),
{
    let b0: u32 = buf[pos] as u32;
    let b1: u32 = buf[pos + 1] as u32;
    let b2: u32 = buf[pos + 2] as u32;
    let b3: u32 = buf[pos + 3] as u32;
    b0 * 16777216 + b1 * 65536 + b2 * 256 + b3
}

/// Appends the big-endian encoding of `x` to `out`.
pub fn write_u16(out: &mut Vec<u8>, x: u16)
    ensures
        final(out)@ == old(out)@ + spec_u16_bytes(x),
{
    out.push((x / 256) as u8);
    out.push((x % 256) as u8);
}

/// Appends the big-endian encoding of `x` to `out`.
pub fn write_u32(out: &mut Vec<u8>, x: u32)
    ensures
        final(out)@ == old(out)@ + spec_u32_bytes(x),
{
    out.push((x / 16777216) as u8);
    out.push((x / 65536 % 256) as u8);
    out.push((x / 256 % 256) as u8);
    out.push((x % 256) as u8);
}

/// Decoding the encoding of a 16-bit value gives the value back.
pub proof fn lemma_u16_roundtrip(x: u16)
    ensures
        spec_u16_bytes(x).len() == 2,
        spec_u16_be(spec_u16_bytes(x)[0], spec_u16_bytes(x)[1]) == x,
{
}

/// Decoding the encoding of a 32-bit value gives the value back.
pub proof fn lemma_u32_roundtrip(x: u32)
    ensures
        spec_u32_bytes(x).len() == 4,
        spec_u32_be(
            spec_u32_bytes(x)[0],
            spec_u32_bytes(x)[1],
            spec_u32_bytes(x)[2],
            spec_u32_bytes(x)[3],
        ) == x,
{
}

/// Copies the bytes of `buf` from `from` up to `to`.
pub fn copy_range(buf: &[u8], from: usize, to: usize) -> (bytes: Vec<u8>)
    requires
        from <= to <= buf@.len(),
    ensures
        bytes@ == buf@.subrange(from as int, to as int),
{
    let mut out: Vec<u8> = Vec::new();
    let mut i: usize = from;
    while i < to
        invariant
            from <= i <= to <= buf@.len(),
            out@ == buf@.subrange(from as int, i as int),
        decreases to - i,
    {
        out.push(buf[i]);
        assert(buf@.subrange(from as int, i + 1) =~= buf@.subrange(from as int, i as int).push(
            buf@[i as int],
        ));
        i = i + 1;
    }
    out
}

} // verus!

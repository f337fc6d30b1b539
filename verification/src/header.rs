//! The fixed 12-byte message header.

use vstd::prelude::*;
use crate::error::DnsError;
use crate::wire::{read_u16, spec_read_u16, spec_u16_bytes, write_u16};

verus! {

/// The number of bytes a header occupies on the wire.
pub const HEADER_LEN: usize = 12;

/// The message header. The flag fields are kept as small integers; which
/// values each may hold is stated by [`Header::wf`].
#[derive(Clone, Copy, Debug, Default, PartialEq, Eq, Structural)]
pub struct Header {
    /// Opaque token that ties a response to its query.
    pub id: u16,
    /// Query (0) or response (1).
    pub qr: u8,
    /// Operation code, 4 bits.
    pub opcode: u8,
    /// Authoritative answer, 1 bit.
    pub aa: u8,
    /// Truncated message, 1 bit.
    pub tc: u8,
    /// Recursion desired, 1 bit.
    pub rd: u8,
    /// Recursion available, 1 bit.
    pub ra: u8,
    /// Reserved, 3 bits, carried through as given.
    pub z: u8,
    /// Response code, 4 bits.
    pub r_code: u8,
    /// Number of entries in the question section.
    pub qd_count: u16,
    /// Number of entries in the answer section.
    pub an_count: u16,
    /// Number of entries in the authority section.
    pub ns_count: u16,
    /// Number of entries in the additional section.
    pub ar_count: u16,
}

impl Header {
    /// Every flag field fits the number of bits it has on the wire.
    pub open spec fn wf(self) -> bool {
        &&& self.qr < 2
        &&& self.opcode < 16
        &&& self.aa < 2
        &&& self.tc < 2
        &&& self.rd < 2
        &&& self.ra < 2
        &&& self.z < 8
        &&& self.r_code < 16
    }

    /// Tells whether every flag field fits its bits.
    pub fn is_well_formed(&self) -> (b: bool)
        ensures
            b == self.wf(),
    {
        self.qr < 2 && self.opcode < 16 && self.aa < 2 && self.tc < 2 && self.rd < 2 && self.ra
            < 2 && self.z < 8 && self.r_code < 16
    }
}

/// The first flags byte: `qr`, `opcode`, `aa`, `tc`, `rd`, from the highest
/// bit down.
pub open spec fn spec_flags_high(h: Header) -> u8 {
    (h.qr * 128 + h.opcode * 8 + h.aa * 4 + h.tc * 2 + h.rd) as u8
}

/// The second flags byte: `ra`, `z`, `r_code`, from the highest bit down.
pub open spec fn spec_flags_low(h: Header) -> u8 {
    (h.ra * 128 + h.z * 16 + h.r_code) as u8
}

/// The 12 bytes of a header on the wire.
pub open spec fn spec_encode_header(h: Header) -> Seq<u8> {
    spec_u16_bytes(h.id) + seq![spec_flags_high(h), spec_flags_low(h)] + spec_u16_bytes(
        h.qd_count,
    ) + spec_u16_bytes(h.an_count) + spec_u16_bytes(h.ns_count) + spec_u16_bytes(h.ar_count)
}

/// The header that the 12 bytes at `pos` stand for.
pub open spec fn spec_header_at(buf: Seq<u8>, pos: int) -> Header
    recommends
        0 <= pos,
        pos + 12 <= buf.len(),
{
    Header {
        id: spec_read_u16(buf, pos),
        qr: buf[pos + 2] / 128,
        opcode: buf[pos + 2] / 8 % 16,
        aa: buf[pos + 2] / 4 % 2,
        tc: buf[pos + 2] / 2 % 2,
        rd: buf[pos + 2] % 2,
        ra: buf[pos + 3] / 128,
        z: buf[pos + 3] / 16 % 8,
        r_code: buf[pos + 3] % 16,
        qd_count: spec_read_u16(buf, pos + 4),
        an_count: spec_read_u16(buf, pos + 6),
        ns_count: spec_read_u16(buf, pos + 8),
        ar_count: spec_read_u16(buf, pos + 10),
    }
}

/// What decoding a header at `pos` gives: the header, or `OutOfBounds` where
/// fewer than 12 bytes lie at `pos`.
pub open spec fn spec_decode_header(buf: Seq<u8>, pos: usize) -> Result<Header, DnsError> {
    if pos + 12 > buf.len() {
        Err(DnsError::OutOfBounds { offset: pos, len: buf.len() as usize })
    } else {
        Ok(spec_header_at(buf, pos as int))
    }
}

/// Decodes the header that starts at `pos`.
pub fn decode_header(buf: &[u8], pos: usize) -> (r: Result<Header, DnsError>)
    ensures
        r == spec_decode_header(buf@, pos),
        r is Ok ==> r->Ok_0.wf(),
{
    let len: usize = buf.len();
    if pos > len || len - pos < HEADER_LEN {
        return Err(DnsError::OutOfBounds { offset: pos, len });
    }
    let hi: u8 = buf[pos + 2];
    let lo: u8 = buf[pos + 3];
    Ok(
        Header {
            id: read_u16(buf, pos),
            qr: hi / 128,
            opcode: hi / 8 % 16,
            aa: hi / 4 % 2,
            tc: hi / 2 % 2,
            rd: hi % 2,
            ra: lo / 128,
            z: lo / 16 % 8,
            r_code: lo % 16,
            qd_count: read_u16(buf, pos + 4),
            an_count: read_u16(buf, pos + 6),
            ns_count: read_u16(buf, pos + 8),
            ar_count: read_u16(buf, pos + 10),
        },
    )
}

/// Appends the 12 bytes of `h` to `out`.
pub fn write_header(out: &mut Vec<u8>, h: &Header)
    requires
        h.wf(),
    ensures
        final(out)@ == old(out)@ + spec_encode_header(*h),
{
    write_u16(out, h.id);
    out.push(h.qr * 128 + h.opcode * 8 + h.aa * 4 + h.tc * 2 + h.rd);
    out.push(h.ra * 128 + h.z * 16 + h.r_code);
    write_u16(out, h.qd_count);
    write_u16(out, h.an_count);
    write_u16(out, h.ns_count);
    write_u16(out, h.ar_count);
    assert(out@ =~= old(out)@ + spec_encode_header(*h));
}

/// Encodes `h` as its 12 bytes.
pub fn encode_header(h: &Header) -> (bytes: Vec<u8>)
    requires
        h.wf(),
    ensures
        bytes@ == spec_encode_header(*h),
        bytes@.len() == 12,
{
    let mut out: Vec<u8> = Vec::new();
    write_header(&mut out, h);
    assert(out@ =~= spec_encode_header(*h));
    out
}

/// A header takes 12 bytes on the wire.
pub proof fn lemma_header_len(h: Header)
    ensures
        spec_encode_header(h).len() == 12,
{
}

/// Wherever the encoding of a well-formed header lies in a buffer, decoding
/// at that place gives the header back.
pub proof fn lemma_header_decode_at(buf: Seq<u8>, pos: usize, h: Header)
    requires
        h.wf(),
        pos + 12 <= buf.len(),
        buf.subrange(pos as int, pos + 12) == spec_encode_header(h),
    ensures
        spec_decode_header(buf, pos) == Ok::<Header, DnsError>(h),
{
    let enc = spec_encode_header(h);
    assert(enc.len() == 12);
    assert forall|i: int| 0 <= i < 12 implies buf[pos + i] == enc[i] by {
        assert(buf.subrange(pos as int, pos + 12)[i] == buf[pos + i]);
    }
    assert(buf[pos + 0] == enc[0]);
    assert(buf[pos + 1] == enc[1]);
    assert(buf[pos + 2] == enc[2]);
    assert(buf[pos + 3] == enc[3]);
    assert(buf[pos + 4] == enc[4]);
    assert(buf[pos + 5] == enc[5]);
    assert(buf[pos + 6] == enc[6]);
    assert(buf[pos + 7] == enc[7]);
    assert(buf[pos + 8] == enc[8]);
    assert(buf[pos + 9] == enc[9]);
    assert(buf[pos + 10] == enc[10]);
    assert(buf[pos + 11] == enc[11]);
}

/// Decoding the encoding of a well-formed header gives the header back.
pub proof fn lemma_header_roundtrip(h: Header)
    requires
        h.wf(),
    ensures
        spec_decode_header(spec_encode_header(h), 0) == Ok::<Header, DnsError>(h),
{
    let enc = spec_encode_header(h);
    assert(enc.subrange(0, 12) =~= enc);
    lemma_header_decode_at(enc, 0, h);
}

} // verus!

//! Resource records: the entries of the answer, authority and additional
//! sections.

use vstd::prelude::*;
use crate::error::DnsError;
use crate::name::{
    decode_name, lemma_encode_name_len, lemma_read_encoded_labels, spec_decode_name,
    spec_encode_name, valid_labels, write_name, Name,
};
use crate::wire::{
    copy_range, read_u16, read_u32, spec_read_u16, spec_read_u32, spec_u16_bytes,
    spec_u32_bytes, write_u16, write_u32,
};

verus! {

/// The record type of an IPv4 address record.
pub const TYPE_ADDRESS: u16 = 1;

/// The bytes between the name of a record and its data: type, class, time to
/// live and data length.
pub const RECORD_FIXED_LEN: usize = 10;

/// One resource record. The data is carried as opaque bytes.
#[derive(Clone, Debug, Default, PartialEq, Eq)]
pub struct Record {
    pub name: Name,
    pub ty: u16,
    pub class: u16,
    /// Seconds the record may be cached.
    pub ttl: u32,
    /// The number of data bytes.
    pub rdlength: u16,
    pub rdata: Vec<u8>,
}

/// A record as a mathematical value.
pub struct RecordView {
    pub name: Seq<Seq<u8>>,
    pub ty: u16,
    pub class: u16,
    pub ttl: u32,
    pub rdlength: u16,
    pub rdata: Seq<u8>,
}

impl View for Record {
    type V = RecordView;

    open spec fn view(&self) -> RecordView {
        RecordView {
            name: self.name@,
            ty: self.ty,
            class: self.class,
            ttl: self.ttl,
            rdlength: self.rdlength,
            rdata: self.rdata@,
        }
    }
}

impl RecordView {
    /// The name can be written to the wire and the declared data length is
    /// the length of the data.
    pub open spec fn wf(self) -> bool {
        &&& valid_labels(self.name)
        &&& self.rdata.len() == self.rdlength
    }
}

impl Record {
    /// The name can be written to the wire and the declared data length is
    /// the length of the data.
    pub open spec fn wf(&self) -> bool {
        self@.wf()
    }

    /// Tells whether the record can be written to the wire.
    pub fn is_well_formed(&self) -> (b: bool)
        ensures
            b == self.wf(),
    {
        self.name.is_well_formed() && self.rdata.len() == self.rdlength as usize
    }
}

/// The wire form of a record: the uncompressed name, type, class, time to
/// live, data length, data.
pub open spec fn spec_encode_record(r: RecordView) -> Seq<u8> {
    spec_encode_name(r.name) + spec_u16_bytes(r.ty) + spec_u16_bytes(r.class) + spec_u32_bytes(
        r.ttl,
    ) + spec_u16_bytes(r.rdlength) + r.rdata
}

/// What decoding a record at `pos` gives: the record and the bytes it
/// occupies, the name counted as it lies there. A name that does not decode
/// gives its error; fewer than 10 bytes behind the name give `OutOfBounds`
/// with the offset at which they were looked for; fewer data bytes than the
/// declared length give `TruncatedBuffer`.
pub open spec fn spec_decode_record(buf: Seq<u8>, pos: usize) -> Result<
    (RecordView, int),
    DnsError,
> {
    match spec_decode_name(buf, pos) {
        Err(e) => Err(e),
        Ok((name, span)) => {
            let fixed = pos + span;
            if fixed + 10 > buf.len() {
                Err(DnsError::OutOfBounds { offset: fixed as usize, len: buf.len() as usize })
            } else {
                let rdlength = spec_read_u16(buf, fixed + 8);
                let data = fixed + 10;
                if data + rdlength > buf.len() {
                    Err(DnsError::TruncatedBuffer)
                } else {
                    Ok(
                        (
                            RecordView {
                                name,
                                ty: spec_read_u16(buf, fixed),
                                class: spec_read_u16(buf, fixed + 2),
                                ttl: spec_read_u32(buf, fixed + 4),
                                rdlength,
                                rdata: buf.subrange(data, data + rdlength),
                            },
                            span + 10 + rdlength,
                        ),
                    )
                }
            }
        },
    }
}

/// Decodes the record that starts at `pos`, and tells how many bytes it
/// occupies there. A decoded record is well formed.
pub fn decode_record(buf: &[u8], pos: usize) -> (r: Result<(Record, usize), DnsError>)
    ensures
        match r {
            Ok((rec, consumed)) => spec_decode_record(buf@, pos) == Ok::<
                (RecordView, int),
                DnsError,
            >((rec@, consumed as int)) && pos + consumed <= buf@.len() && rec.wf(),
            Err(e) => spec_decode_record(buf@, pos) == Err::<(RecordView, int), DnsError>(e),
        },
{
    let len: usize = buf.len();
    match decode_name(buf, pos) {
        Err(e) => Err(e),
        Ok((name, span)) => {
            let fixed: usize = pos + span;
            if len - fixed < RECORD_FIXED_LEN {
                return Err(DnsError::OutOfBounds { offset: fixed, len });
            }
            let ty: u16 = read_u16(buf, fixed);
            let class: u16 = read_u16(buf, fixed + 2);
            let ttl: u32 = read_u32(buf, fixed + 4);
            let rdlength: u16 = read_u16(buf, fixed + 8);
            let data: usize = fixed + RECORD_FIXED_LEN;
            if len - data < rdlength as usize {
                return Err(DnsError::TruncatedBuffer);
            }
            let rdata = copy_range(buf, data, data + rdlength as usize);
            Ok(
                (
                    Record { name, ty, class, ttl, rdlength, rdata },
                    span + RECORD_FIXED_LEN + rdlength as usize,
                ),
            )
        },
    }
}

/// Appends the wire form of `r` to `out`.
pub fn write_record(out: &mut Vec<u8>, r: &Record)
    requires
        r.wf(),
    ensures
        final(out)@ == old(out)@ + spec_encode_record(r@),
{
    write_name(out, &r.name);
    write_u16(out, r.ty);
    write_u16(out, r.class);
    write_u32(out, r.ttl);
    write_u16(out, r.rdlength);
    let ghost before = out@;
    let mut i: usize = 0;
    while i < r.rdata.len()
        invariant
            i <= r.rdata.len(),
            out@ == before + r.rdata@.take(i as int),
        decreases r.rdata.len() - i,
    {
        out.push(r.rdata[i]);
        assert(r.rdata@.take(i + 1) =~= r.rdata@.take(i as int).push(r.rdata@[i as int]));
        i = i + 1;
    }
    assert(r.rdata@.take(r.rdata.len() as int) =~= r.rdata@);
    assert(out@ =~= old(out)@ + spec_encode_record(r@));
}

/// Encodes `r`: the uncompressed name, type, class, time to live, data
/// length, data.
pub fn encode_record(r: &Record) -> (bytes: Vec<u8>)
    requires
        r.wf(),
    ensures
        bytes@ == spec_encode_record(r@),
{
    let mut out: Vec<u8> = Vec::new();
    write_record(&mut out, r);
    assert(out@ =~= spec_encode_record(r@));
    out
}

/// Wherever the encoding of a well-formed record lies in a buffer, decoding
/// at that place gives the record back and consumes exactly the encoding.
pub proof fn lemma_record_decode_at(buf: Seq<u8>, pos: usize, r: RecordView)
    requires
        r.wf(),
        pos + spec_encode_record(r).len() <= buf.len(),
        buf.subrange(pos as int, pos + spec_encode_record(r).len()) == spec_encode_record(r),
    ensures
        spec_decode_record(buf, pos) == Ok::<(RecordView, int), DnsError>(
            (r, spec_encode_record(r).len() as int),
        ),
{
    let enc = spec_encode_record(r);
    let name_enc = spec_encode_name(r.name);
    let n = name_enc.len() as int;
    lemma_encode_name_len(r.name);
    assert(enc.len() == n + 10 + r.rdlength);
    assert forall|i: int| 0 <= i < enc.len() implies buf[pos + i] == enc[i] by {
        assert(buf.subrange(pos as int, pos + enc.len())[i] == buf[pos + i]);
    }
    assert(buf.subrange(pos as int, pos + n) =~= name_enc) by {
        assert forall|i: int| 0 <= i < n implies buf[pos + i] == name_enc[i] by {
            assert(enc[i] == name_enc[i]);
        }
    }
    lemma_read_encoded_labels(buf, pos as int, r.name, seq![pos]);
    let fixed = pos + n;
    assert(buf[fixed + 0] == enc[n + 0]);
    assert(buf[fixed + 1] == enc[n + 1]);
    assert(buf[fixed + 2] == enc[n + 2]);
    assert(buf[fixed + 3] == enc[n + 3]);
    assert(buf[fixed + 4] == enc[n + 4]);
    assert(buf[fixed + 5] == enc[n + 5]);
    assert(buf[fixed + 6] == enc[n + 6]);
    assert(buf[fixed + 7] == enc[n + 7]);
    assert(buf[fixed + 8] == enc[n + 8]);
    assert(buf[fixed + 9] == enc[n + 9]);
    assert(enc[n + 0] == spec_u16_bytes(r.ty)[0]);
    assert(enc[n + 1] == spec_u16_bytes(r.ty)[1]);
    assert(enc[n + 2] == spec_u16_bytes(r.class)[0]);
    assert(enc[n + 3] == spec_u16_bytes(r.class)[1]);
    assert(enc[n + 4] == spec_u32_bytes(r.ttl)[0]);
    assert(enc[n + 5] == spec_u32_bytes(r.ttl)[1]);
    assert(enc[n + 6] == spec_u32_bytes(r.ttl)[2]);
    assert(enc[n + 7] == spec_u32_bytes(r.ttl)[3]);
    assert(enc[n + 8] == spec_u16_bytes(r.rdlength)[0]);
    assert(enc[n + 9] == spec_u16_bytes(r.rdlength)[1]);
    assert(spec_read_u16(buf, fixed) == r.ty);
    assert(spec_read_u16(buf, fixed + 2) == r.class);
    assert(spec_read_u32(buf, fixed + 4) == r.ttl);
    assert(spec_read_u16(buf, fixed + 8) == r.rdlength);
    let data = fixed + 10;
    assert(buf.subrange(data, data + r.rdlength) =~= r.rdata) by {
        assert forall|i: int| 0 <= i < r.rdlength implies buf[data + i] == r.rdata[i] by {
            assert(buf[pos + (n + 10 + i)] == enc[n + 10 + i]);
        }
    }
}

/// Decoding the encoding of a well-formed record gives the record back.
pub proof fn lemma_record_roundtrip(r: RecordView)
    requires
        r.wf(),
    ensures
        spec_decode_record(spec_encode_record(r), 0) == Ok::<(RecordView, int), DnsError>(
            (r, spec_encode_record(r).len() as int),
        ),
{
    let enc = spec_encode_record(r);
    assert(enc.subrange(0, 0 + enc.len() as int) =~= enc);
    lemma_record_decode_at(enc, 0, r);
}

/// A record whose declared data length is more than the bytes that remain
/// behind its fixed fields does not decode: the result is `TruncatedBuffer`.
pub proof fn lemma_record_data_past_end_fails(buf: Seq<u8>, pos: usize)
    requires
        spec_decode_name(buf, pos) is Ok,
        pos + spec_decode_name(buf, pos)->Ok_0.1 + 10 <= buf.len(),
        pos + spec_decode_name(buf, pos)->Ok_0.1 + 10 + spec_read_u16(
            buf,
            pos + spec_decode_name(buf, pos)->Ok_0.1 + 8,
        ) > buf.len(),
    ensures
        spec_decode_record(buf, pos) == Err::<(RecordView, int), DnsError>(
            DnsError::TruncatedBuffer,
        ),
{
}

} // verus!

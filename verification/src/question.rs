//! Entries of the question section.

use vstd::prelude::*;
use crate::error::DnsError;
use crate::name::{
    decode_name, lemma_encode_name_len, lemma_read_encoded_labels, spec_decode_name,
    spec_encode_name, valid_labels, write_name, Name,
};
use crate::wire::{read_u16, spec_read_u16, spec_u16_bytes, write_u16};

verus! {

/// One question: the name asked about, and the type and class wanted.
#[derive(Clone, Debug, Default, PartialEq, Eq)]
pub struct Question {
    pub name: Name,
    pub ty: u16,
    pub class: u16,
}

/// A question as a mathematical value.
pub struct QuestionView {
    pub name: Seq<Seq<u8>>,
    pub ty: u16,
    pub class: u16,
}

impl View for Question {
    type V = QuestionView;

    open spec fn view(&self) -> QuestionView {
        QuestionView { name: self.name@, ty: self.ty, class: self.class }
    }
}

impl QuestionView {
    /// The name can be written to the wire.
    pub open spec fn wf(self) -> bool {
        valid_labels(self.name)
    }
}

impl Question {
    /// The name can be written to the wire.
    pub open spec fn wf(&self) -> bool {
        self@.wf()
    }

    /// Tells whether the question can be written to the wire.
    pub fn is_well_formed(&self) -> (b: bool)
        ensures
            b == self.wf(),
    {
        self.name.is_well_formed()
    }
}

/// The wire form of a question: the uncompressed name, the type, the class.
pub open spec fn spec_encode_question(q: QuestionView) -> Seq<u8> {
    spec_encode_name(q.name) + spec_u16_bytes(q.ty) + spec_u16_bytes(q.class)
}

/// What decoding a question at `pos` gives: the question and the bytes it
/// occupies, the name counted as it lies there. A name that does not decode
/// gives its error; fewer than 4 bytes behind the name give `OutOfBounds`
/// with the offset at which they were looked for.
pub open spec fn spec_decode_question(buf: Seq<u8>, pos: usize) -> Result<
    (QuestionView, int),
    DnsError,
> {
    match spec_decode_name(buf, pos) {
        Err(e) => Err(e),
        Ok((name, span)) => {
            let fixed = pos + span;
            if fixed + 4 > buf.len() {
                Err(DnsError::OutOfBounds { offset: fixed as usize, len: buf.len() as usize })
            } else {
                Ok(
                    (
                        QuestionView {
                            name,
                            ty: spec_read_u16(buf, fixed),
                            class: spec_read_u16(buf, fixed + 2),
                        },
                        span + 4,
                    ),
                )
            }
        },
    }
}

/// Decodes the question that starts at `pos`, and tells how many bytes it
/// occupies there. A decoded question is well formed.
pub fn decode_question(buf: &[u8], pos: usize) -> (r: Result<(Question, usize), DnsError>)
    ensures
        match r {
            Ok((q, consumed)) => spec_decode_question(buf@, pos) == Ok::<
                (QuestionView, int),
                DnsError,
            >((q@, consumed as int)) && pos + consumed <= buf@.len() && q.wf(),
            Err(e) => spec_decode_question(buf@, pos) == Err::<(QuestionView, int), DnsError>(e),
        },
{
    let len: usize = buf.len();
    match decode_name(buf, pos) {
        Err(e) => Err(e),
        Ok((name, span)) => {
            let fixed: usize = pos + span;
            if len - fixed < 4 {
                return Err(DnsError::OutOfBounds { offset: fixed, len });
            }
            let ty: u16 = read_u16(buf, fixed);
            let class: u16 = read_u16(buf, fixed + 2);
            Ok((Question { name, ty, class }, span + 4))
        },
    }
}

/// Appends the wire form of `q` to `out`.
pub fn write_question(out: &mut Vec<u8>, q: &Question)
    requires
        q.wf(),
    ensures
        final(out)@ == old(out)@ + spec_encode_question(q@),
{
    write_name(out, &q.name);
    write_u16(out, q.ty);
    write_u16(out, q.class);
    assert(out@ =~= old(out)@ + spec_encode_question(q@));
}

/// Encodes `q`: the uncompressed name, the type, the class.
pub fn encode_question(q: &Question) -> (bytes: Vec<u8>)
    requires
        q.wf(),
    ensures
        bytes@ == spec_encode_question(q@),
{
    let mut out: Vec<u8> = Vec::new();
    write_question(&mut out, q);
    assert(out@ =~= spec_encode_question(q@));
    out
}

/// Wherever the encoding of a well-formed question lies in a buffer,
/// decoding at that place gives the question back and consumes exactly the
/// encoding.
pub proof fn lemma_question_decode_at(buf: Seq<u8>, pos: usize, q: QuestionView)
    requires
        q.wf(),
        pos + spec_encode_question(q).len() <= buf.len(),
        buf.subrange(pos as int, pos + spec_encode_question(q).len()) == spec_encode_question(q),
    ensures
        spec_decode_question(buf, pos) == Ok::<(QuestionView, int), DnsError>(
            (q, spec_encode_question(q).len() as int),
        ),
{
    let enc = spec_encode_question(q);
    let name_enc = spec_encode_name(q.name);
    let n = name_enc.len() as int;
    lemma_encode_name_len(q.name);
    assert(enc.len() == n + 4);
    assert forall|i: int| 0 <= i < enc.len() implies buf[pos + i] == enc[i] by {
        assert(buf.subrange(pos as int, pos + enc.len())[i] == buf[pos + i]);
    }
    assert(buf.subrange(pos as int, pos + n) =~= name_enc) by {
        assert forall|i: int| 0 <= i < n implies buf[pos + i] == name_enc[i] by {
            assert(enc[i] == name_enc[i]);
        }
    }
    lemma_read_encoded_labels(buf, pos as int, q.name, seq![pos]);
    let fixed = pos + n;
    assert(buf[fixed + 0] == enc[n + 0]);
    assert(buf[fixed + 1] == enc[n + 1]);
    assert(buf[fixed + 2] == enc[n + 2]);
    assert(buf[fixed + 3] == enc[n + 3]);
    assert(spec_read_u16(buf, fixed) == q.ty);
    assert(spec_read_u16(buf, fixed + 2) == q.class);
}

/// Decoding the encoding of a well-formed question gives the question back.
pub proof fn lemma_question_roundtrip(q: QuestionView)
    requires
        q.wf(),
    ensures
        spec_decode_question(spec_encode_question(q), 0) == Ok::<(QuestionView, int), DnsError>(
            (q, spec_encode_question(q).len() as int),
        ),
{
    let enc = spec_encode_question(q);
    assert(enc.subrange(0, 0 + enc.len() as int) =~= enc);
    lemma_question_decode_at(enc, 0, q);
}

} // verus!

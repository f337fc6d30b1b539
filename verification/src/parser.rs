//! A cursor over a received datagram that reads a whole message from it.

use vstd::prelude::*;
use vstd::slice::slice_subrange;
use crate::error::DnsError;
use crate::header::{decode_header, Header, HEADER_LEN};
use crate::name::{decode_name, spec_decode_name, Name};
use crate::packet::{
    questions_view, questions_wf, records_view, records_wf, spec_parse_packet,
    spec_parse_questions, spec_parse_records, spec_prepend_entries, DNSPacket, PacketView,
};
use crate::question::{decode_question, Question, QuestionView};
use crate::record::{decode_record, Record, RecordView};

verus! {

/// A buffer that should hold a message, and the offset of the first byte
/// not read yet. Every read checks the bounds before it touches the buffer,
/// and a read that fails leaves the cursor where it was.
pub struct PacketParser<'a> {
    buffer: &'a [u8],
    current: usize,
}

impl<'a> PacketParser<'a> {
    /// The bytes of the buffer.
    pub closed spec fn bytes(&self) -> Seq<u8> {
        self.buffer@
    }

    /// The offset of the first byte not read yet.
    pub closed spec fn cursor(&self) -> usize {
        self.current
    }

    /// A parser at the start of `buffer`.
    pub fn new(buffer: &'a [u8]) -> (p: Self)
        ensures
            p.bytes() == buffer@,
            p.cursor() == 0,
    {
        Self { buffer, current: 0 }
    }

    /// The offset of the first byte not read yet.
    pub fn position(&self) -> (pos: usize)
        ensures
            pos == self.cursor(),
    {
        self.current
    }

    /// Takes the next `n` bytes and moves the cursor behind them. Where
    /// fewer than `n` bytes remain, nothing is taken: the result is
    /// `OutOfBounds` with the cursor and the length of the buffer.
    pub fn advance_n(&mut self, n: usize) -> (r: Result<&'a [u8], DnsError>)
        ensures
            final(self).bytes() == old(self).bytes(),
            old(self).cursor() + n <= old(self).bytes().len() ==> r is Ok && r->Ok_0@ == old(
                self,
            ).bytes().subrange(old(self).cursor() as int, old(self).cursor() + n)
                && final(self).cursor() == old(self).cursor() + n,
            old(self).cursor() + n > old(self).bytes().len() ==> r == Err::<&[u8], DnsError>(
                DnsError::OutOfBounds {
                    offset: old(self).cursor(),
                    len: old(self).bytes().len() as usize,
                },
            ) && final(self).cursor() == old(self).cursor(),
    {
        let len: usize = self.buffer.len();
        if self.current > len || len - self.current < n {
            return Err(DnsError::OutOfBounds { offset: self.current, len });
        }
        let from: usize = self.current;
        self.current = from + n;
        Ok(slice_subrange(self.buffer, from, from + n))
    }

    /// The number of bytes that the name at the cursor occupies there: its
    /// labels up to and with the zero byte or the first pointer. The cursor
    /// stays. A name that does not decode gives its error.
    pub fn get_name_length(&self) -> (r: Result<usize, DnsError>)
        ensures
            match r {
                Ok(length) => spec_decode_name(self.bytes(), self.cursor()) is Ok
                    && spec_decode_name(self.bytes(), self.cursor())->Ok_0.1 == length
                    && self.cursor() + length <= self.bytes().len(),
                Err(e) => spec_decode_name(self.bytes(), self.cursor()) == Err::<
                    (Seq<Seq<u8>>, int),
                    DnsError,
                >(e),
            },
    {
        match decode_name(self.buffer, self.current) {
            Err(e) => Err(e),
            Ok((_, consumed)) => Ok(consumed),
        }
    }

    /// Reads the name at the cursor, following compression pointers, and
    /// moves the cursor behind the bytes that the name occupies there.
    pub fn parse_name(&mut self) -> (r: Result<Name, DnsError>)
        ensures
            final(self).bytes() == old(self).bytes(),
            match r {
                Ok(name) => spec_decode_name(old(self).bytes(), old(self).cursor()) == Ok::<
                    (Seq<Seq<u8>>, int),
                    DnsError,
                >((name@, final(self).cursor() - old(self).cursor())),
                Err(e) => spec_decode_name(old(self).bytes(), old(self).cursor()) == Err::<
                    (Seq<Seq<u8>>, int),
                    DnsError,
                >(e) && final(self).cursor() == old(self).cursor(),
            },
    {
        let len: usize = self.buffer.len();
        match decode_name(self.buffer, self.current) {
            Err(e) => Err(e),
            Ok((name, consumed)) => {
                assert(self.current + consumed <= len);
                self.current = self.current + consumed;
                Ok(name)
            },
        }
    }

    /// Reads `question_count` questions from the cursor on and moves the
    /// cursor behind the last. Where one of them does not decode, none is
    /// returned and the cursor stays.
    pub fn parse_question(&mut self, question_count: usize) -> (r: Result<
        Vec<Question>,
        DnsError,
    >)
        ensures
            final(self).bytes() == old(self).bytes(),
            match r {
                Ok(questions) => spec_parse_questions(
                    old(self).bytes(),
                    old(self).cursor(),
                    question_count as nat,
                ) == Ok::<(Seq<QuestionView>, usize), DnsError>(
                    (questions_view(questions@), final(self).cursor()),
                ) && questions@.len() == question_count && questions_wf(
                    questions_view(questions@),
                ),
                Err(e) => spec_parse_questions(
                    old(self).bytes(),
                    old(self).cursor(),
                    question_count as nat,
                ) == Err::<(Seq<QuestionView>, usize), DnsError>(e) && final(self).cursor() == old(
                    self,
                ).cursor(),
            },
    {
        let len: usize = self.buffer.len();
        let start: usize = self.current;
        let mut questions: Vec<Question> = Vec::new();
        let mut i: usize = 0;
        let ghost whole = spec_parse_questions(self.buffer@, start, question_count as nat);
        proof {
            assert(questions_view(questions@) =~= Seq::<QuestionView>::empty());
            if let Ok((rest, end)) = whole {
                assert(Seq::<QuestionView>::empty() + rest =~= rest);
            }
        }
        while i < question_count
            invariant
                i <= question_count,
                len == self.buffer@.len(),
                self.buffer == old(self).buffer,
                start == old(self).current,
                questions@.len() == i,
                questions_wf(questions_view(questions@)),
                whole == spec_parse_questions(self.buffer@, start, question_count as nat),
                whole == spec_prepend_entries(
                    questions_view(questions@),
                    spec_parse_questions(
                        self.buffer@,
                        self.current,
                        (question_count - i) as nat,
                    ),
                ),
            decreases question_count - i,
        {
            match decode_question(self.buffer, self.current) {
                Err(e) => {
                    self.current = start;
                    return Err(e);
                },
                Ok((q, consumed)) => {
                    proof {
                        let sofar = questions_view(questions@);
                        let rest = spec_parse_questions(
                            self.buffer@,
                            (self.current + consumed) as usize,
                            (question_count - i - 1) as nat,
                        );
                        assert(questions_view(questions@.push(q)) =~= sofar.push(q@));
                        assert(questions_wf(sofar.push(q@))) by {
                            assert forall|j: int| 0 <= j < sofar.push(q@).len() implies (
                            #[trigger] sofar.push(q@)[j]).wf() by {
                                if j < sofar.len() {
                                    assert(sofar.push(q@)[j] == sofar[j]);
                                }
                            }
                        }
                        if let Ok((tail, end)) = rest {
                            assert(sofar + (seq![q@] + tail) =~= sofar.push(q@) + tail);
                        }
                    }
                    self.current = self.current + consumed;
                    questions.push(q);
                    i = i + 1;
                },
            }
        }
        proof {
            let sofar = questions_view(questions@);
            assert(sofar + Seq::<QuestionView>::empty() =~= sofar);
        }
        Ok(questions)
    }

    /// Reads `record_count` records from the cursor on and moves the cursor
    /// behind the last. Where one of them does not decode, none is returned
    /// and the cursor stays.
    pub fn parse_record(&mut self, record_count: usize) -> (r: Result<Vec<Record>, DnsError>)
        ensures
            final(self).bytes() == old(self).bytes(),
            match r {
                Ok(records) => spec_parse_records(
                    old(self).bytes(),
                    old(self).cursor(),
                    record_count as nat,
                ) == Ok::<(Seq<RecordView>, usize), DnsError>(
                    (records_view(records@), final(self).cursor()),
                ) && records@.len() == record_count && records_wf(records_view(records@)),
                Err(e) => spec_parse_records(
                    old(self).bytes(),
                    old(self).cursor(),
                    record_count as nat,
                ) == Err::<(Seq<RecordView>, usize), DnsError>(e) && final(self).cursor() == old(
                    self,
                ).cursor(),
            },
    {
        let len: usize = self.buffer.len();
        let start: usize = self.current;
        let mut records: Vec<Record> = Vec::new();
        let mut i: usize = 0;
        let ghost whole = spec_parse_records(self.buffer@, start, record_count as nat);
        proof {
            assert(records_view(records@) =~= Seq::<RecordView>::empty());
            if let Ok((rest, end)) = whole {
                assert(Seq::<RecordView>::empty() + rest =~= rest);
            }
        }
        while i < record_count
            invariant
                i <= record_count,
                len == self.buffer@.len(),
                self.buffer == old(self).buffer,
                start == old(self).current,
                records@.len() == i,
                records_wf(records_view(records@)),
                whole == spec_parse_records(self.buffer@, start, record_count as nat),
                whole == spec_prepend_entries(
                    records_view(records@),
                    spec_parse_records(self.buffer@, self.current, (record_count - i) as nat),
                ),
            decreases record_count - i,
        {
            match decode_record(self.buffer, self.current) {
                Err(e) => {
                    self.current = start;
                    return Err(e);
                },
                Ok((rec, consumed)) => {
                    proof {
                        let sofar = records_view(records@);
                        let rest = spec_parse_records(
                            self.buffer@,
                            (self.current + consumed) as usize,
                            (record_count - i - 1) as nat,
                        );
                        assert(records_view(records@.push(rec)) =~= sofar.push(rec@));
                        assert(records_wf(sofar.push(rec@))) by {
                            assert forall|j: int| 0 <= j < sofar.push(rec@).len() implies (
                            #[trigger] sofar.push(rec@)[j]).wf() by {
                                if j < sofar.len() {
                                    assert(sofar.push(rec@)[j] == sofar[j]);
                                }
                            }
                        }
                        if let Ok((tail, end)) = rest {
                            assert(sofar + (seq![rec@] + tail) =~= sofar.push(rec@) + tail);
                        }
                    }
                    self.current = self.current + consumed;
                    records.push(rec);
                    i = i + 1;
                },
            }
        }
        proof {
            let sofar = records_view(records@);
            assert(sofar + Seq::<RecordView>::empty() =~= sofar);
        }
        Ok(records)
    }

    /// Reads the message that fills the buffer from the cursor on: the
    /// header, then exactly as many entries of each section as the header
    /// counts. On success the cursor stands at the end of the buffer, the
    /// message is well formed and the counts of its header are the lengths
    /// of its sections. On failure no part of a message is returned and the
    /// cursor stays.
    pub fn deserialize(&mut self) -> (r: Result<DNSPacket, DnsError>)
        ensures
            final(self).bytes() == old(self).bytes(),
            match r {
                Ok(packet) => spec_parse_packet(old(self).bytes(), old(self).cursor()) == Ok::<
                    PacketView,
                    DnsError,
                >(packet@) && final(self).cursor() == old(self).bytes().len()
                    && packet@.counts_match() && packet.wf(),
                Err(e) => spec_parse_packet(old(self).bytes(), old(self).cursor()) == Err::<
                    PacketView,
                    DnsError,
                >(e) && final(self).cursor() == old(self).cursor(),
            },
    {
        let len: usize = self.buffer.len();
        let start: usize = self.current;
        let header: Header = match decode_header(self.buffer, start) {
            Err(e) => {
                return Err(e);
            },
            Ok(h) => h,
        };
        self.current = start + HEADER_LEN;
        let questions = match self.parse_question(header.qd_count as usize) {
            Err(e) => {
                self.current = start;
                return Err(e);
            },
            Ok(qs) => qs,
        };
        let answers = match self.parse_record(header.an_count as usize) {
            Err(e) => {
                self.current = start;
                return Err(e);
            },
            Ok(rs) => rs,
        };
        let authorities = match self.parse_record(header.ns_count as usize) {
            Err(e) => {
                self.current = start;
                return Err(e);
            },
            Ok(rs) => rs,
        };
        let additionals = match self.parse_record(header.ar_count as usize) {
            Err(e) => {
                self.current = start;
                return Err(e);
            },
            Ok(rs) => rs,
        };
        if self.current != len {
            self.current = start;
            return Err(DnsError::MalformedCounts);
        }
        Ok(DNSPacket::new(header, questions, answers, authorities, additionals))
    }
}

/// Parses the message that fills `buffer`. The result is well formed and
/// its header counts are the lengths of its sections.
pub fn parse_packet(buffer: &[u8]) -> (r: Result<DNSPacket, DnsError>)
    ensures
        match r {
            Ok(packet) => spec_parse_packet(buffer@, 0) == Ok::<PacketView, DnsError>(packet@)
                && packet@.counts_match() && packet.wf(),
            Err(e) => spec_parse_packet(buffer@, 0) == Err::<PacketView, DnsError>(e),
        },
{
    let mut parser = PacketParser::new(buffer);
    parser.deserialize()
}

} // verus!

//! A whole message: the header and its four sections.

use vstd::prelude::*;
use crate::error::DnsError;
use crate::header::{
    lemma_header_decode_at, lemma_header_len, spec_decode_header, spec_encode_header,
    write_header, Header,
};
use crate::question::{
    lemma_question_decode_at, spec_decode_question, spec_encode_question, write_question,
    Question, QuestionView,
};
use crate::record::{
    lemma_record_decode_at, spec_decode_record, spec_encode_record, write_record, Record,
    RecordView,
};

verus! {

/// A message. It owns everything it holds; nothing in it refers to the
/// buffer it was read from.
#[derive(Clone, Debug, Default, PartialEq, Eq)]
pub struct DNSPacket {
    pub header: Header,
    pub questions: Vec<Question>,
    pub answers: Vec<Record>,
    pub authorities: Vec<Record>,
    pub additionals: Vec<Record>,
}

/// A message as a mathematical value.
pub struct PacketView {
    pub header: Header,
    pub questions: Seq<QuestionView>,
    pub answers: Seq<RecordView>,
    pub authorities: Seq<RecordView>,
    pub additionals: Seq<RecordView>,
}

/// The questions of a section as mathematical values.
pub open spec fn questions_view(qs: Seq<Question>) -> Seq<QuestionView> {
    qs.map_values(|q: Question| q@)
}

/// The records of a section as mathematical values.
pub open spec fn records_view(rs: Seq<Record>) -> Seq<RecordView> {
    rs.map_values(|r: Record| r@)
}

/// Every question of the section can be written to the wire.
pub open spec fn questions_wf(qs: Seq<QuestionView>) -> bool {
    forall|i: int| 0 <= i < qs.len() ==> (#[trigger] qs[i]).wf()
}

/// Every record of the section can be written to the wire.
pub open spec fn records_wf(rs: Seq<RecordView>) -> bool {
    forall|i: int| 0 <= i < rs.len() ==> (#[trigger] rs[i]).wf()
}

impl View for DNSPacket {
    type V = PacketView;

    open spec fn view(&self) -> PacketView {
        PacketView {
            header: self.header,
            questions: questions_view(self.questions@),
            answers: records_view(self.answers@),
            authorities: records_view(self.authorities@),
            additionals: records_view(self.additionals@),
        }
    }
}

impl PacketView {
    /// The header and every entry can be written to the wire.
    pub open spec fn wf(self) -> bool {
        &&& self.header.wf()
        &&& questions_wf(self.questions)
        &&& records_wf(self.answers)
        &&& records_wf(self.authorities)
        &&& records_wf(self.additionals)
    }

    /// Each count in the header is the number of entries in its section.
    pub open spec fn counts_match(self) -> bool {
        &&& self.header.qd_count == self.questions.len()
        &&& self.header.an_count == self.answers.len()
        &&& self.header.ns_count == self.authorities.len()
        &&& self.header.ar_count == self.additionals.len()
    }
}

/// The wire forms of the questions, one behind the other.
pub open spec fn spec_encode_questions(qs: Seq<QuestionView>) -> Seq<u8>
    decreases qs.len(),
{
    if qs.len() == 0 {
        Seq::empty()
    } else {
        spec_encode_question(qs[0]) + spec_encode_questions(qs.drop_first())
    }
}

/// The wire forms of the records, one behind the other.
pub open spec fn spec_encode_records(rs: Seq<RecordView>) -> Seq<u8>
    decreases rs.len(),
{
    if rs.len() == 0 {
        Seq::empty()
    } else {
        spec_encode_record(rs[0]) + spec_encode_records(rs.drop_first())
    }
}

/// The wire form of a message: the header, then the question, answer,
/// authority and additional sections, nothing compressed.
pub open spec fn spec_encode_packet(p: PacketView) -> Seq<u8> {
    spec_encode_header(p.header) + spec_encode_questions(p.questions) + spec_encode_records(
        p.answers,
    ) + spec_encode_records(p.authorities) + spec_encode_records(p.additionals)
}

/// Puts `prefix` in front of the entries of a successful result and leaves
/// an error as it is.
pub open spec fn spec_prepend_entries<T>(prefix: Seq<T>, r: Result<(Seq<T>, usize), DnsError>)
    -> Result<(Seq<T>, usize), DnsError> {
    match r {
        Ok((rest, end)) => Ok((prefix + rest, end)),
        Err(e) => Err(e),
    }
}

/// What reading `count` questions from `pos` on gives: the questions in
/// order and the offset behind the last. The first question that does not
/// decode gives its error.
pub open spec fn spec_parse_questions(buf: Seq<u8>, pos: usize, count: nat) -> Result<
    (Seq<QuestionView>, usize),
    DnsError,
>
    decreases count,
{
    if count == 0 {
        Ok((Seq::empty(), pos))
    } else {
        match spec_decode_question(buf, pos) {
            Err(e) => Err(e),
            Ok((q, consumed)) => spec_prepend_entries(
                seq![q],
                spec_parse_questions(buf, (pos + consumed) as usize, (count - 1) as nat),
            ),
        }
    }
}

/// What reading `count` records from `pos` on gives: the records in order
/// and the offset behind the last. The first record that does not decode
/// gives its error.
pub open spec fn spec_parse_records(buf: Seq<u8>, pos: usize, count: nat) -> Result<
    (Seq<RecordView>, usize),
    DnsError,
>
    decreases count,
{
    if count == 0 {
        Ok((Seq::empty(), pos))
    } else {
        match spec_decode_record(buf, pos) {
            Err(e) => Err(e),
            Ok((r, consumed)) => spec_prepend_entries(
                seq![r],
                spec_parse_records(buf, (pos + consumed) as usize, (count - 1) as nat),
            ),
        }
    }
}

/// What parsing the message that fills the buffer from `start` on gives:
/// the header, then as many questions, answers, authority records and
/// additional records as the header counts, each read where the one before
/// it ended. The first part that does not decode gives its error, so a
/// message with fewer entries than its header counts does not parse. Bytes
/// left behind the last entry counted give `MalformedCounts`.
pub open spec fn spec_parse_packet(buf: Seq<u8>, start: usize) -> Result<PacketView, DnsError> {
    match spec_decode_header(buf, start) {
        Err(e) => Err(e),
        Ok(header) => match spec_parse_questions(
            buf,
            (start + 12) as usize,
            header.qd_count as nat,
        ) {
            Err(e) => Err(e),
            Ok((questions, after_qd)) => match spec_parse_records(
                buf,
                after_qd,
                header.an_count as nat,
            ) {
                Err(e) => Err(e),
                Ok((answers, after_an)) => match spec_parse_records(
                    buf,
                    after_an,
                    header.ns_count as nat,
                ) {
                    Err(e) => Err(e),
                    Ok((authorities, after_ns)) => match spec_parse_records(
                        buf,
                        after_ns,
                        header.ar_count as nat,
                    ) {
                        Err(e) => Err(e),
                        Ok((additionals, end)) => if end != buf.len() {
                            Err(DnsError::MalformedCounts)
                        } else {
                            Ok(PacketView { header, questions, answers, authorities, additionals })
                        },
                    },
                },
            },
        },
    }
}

/// Encoding one more question at the end appends its wire form.
pub proof fn lemma_encode_questions_push(qs: Seq<QuestionView>, q: QuestionView)
    ensures
        spec_encode_questions(qs.push(q)) == spec_encode_questions(qs) + spec_encode_question(q),
    decreases qs.len(),
{
    if qs.len() == 0 {
        let one = qs.push(q);
        assert(one.drop_first() =~= Seq::<QuestionView>::empty());
        assert(spec_encode_questions(one.drop_first()) =~= Seq::<u8>::empty());
        assert(spec_encode_questions(qs) =~= Seq::<u8>::empty());
        assert(spec_encode_questions(one) =~= spec_encode_questions(qs) + spec_encode_question(
            q,
        ));
    } else {
        assert(qs.push(q).drop_first() =~= qs.drop_first().push(q));
        lemma_encode_questions_push(qs.drop_first(), q);
        assert(spec_encode_questions(qs.push(q)) =~= spec_encode_questions(qs)
            + spec_encode_question(q));
    }
}

/// Encoding one more record at the end appends its wire form.
pub proof fn lemma_encode_records_push(rs: Seq<RecordView>, r: RecordView)
    ensures
        spec_encode_records(rs.push(r)) == spec_encode_records(rs) + spec_encode_record(r),
    decreases rs.len(),
{
    if rs.len() == 0 {
        let one = rs.push(r);
        assert(one.drop_first() =~= Seq::<RecordView>::empty());
        assert(spec_encode_records(one.drop_first()) =~= Seq::<u8>::empty());
        assert(spec_encode_records(rs) =~= Seq::<u8>::empty());
        assert(spec_encode_records(one) =~= spec_encode_records(rs) + spec_encode_record(r));
    } else {
        assert(rs.push(r).drop_first() =~= rs.drop_first().push(r));
        lemma_encode_records_push(rs.drop_first(), r);
        assert(spec_encode_records(rs.push(r)) =~= spec_encode_records(rs) + spec_encode_record(
            r,
        ));
    }
}

/// Appends the wire forms of `questions`, in order, to `out`.
pub fn write_questions(out: &mut Vec<u8>, questions: &Vec<Question>)
    requires
        questions_wf(questions_view(questions@)),
    ensures
        final(out)@ == old(out)@ + spec_encode_questions(questions_view(questions@)),
{
    let ghost all = questions_view(questions@);
    let mut i: usize = 0;
    assert(all.take(0) =~= Seq::<QuestionView>::empty());
    assert(out@ =~= old(out)@ + spec_encode_questions(all.take(0)));
    while i < questions.len()
        invariant
            i <= questions.len(),
            all == questions_view(questions@),
            questions_wf(all),
            out@ == old(out)@ + spec_encode_questions(all.take(i as int)),
        decreases questions.len() - i,
    {
        assert(all[i as int] == questions@[i as int]@);
        assert(all[i as int].wf());
        write_question(out, &questions[i]);
        proof {
            assert(all.take(i + 1) =~= all.take(i as int).push(all[i as int]));
            lemma_encode_questions_push(all.take(i as int), all[i as int]);
            assert(out@ =~= old(out)@ + spec_encode_questions(all.take(i + 1)));
        }
        i = i + 1;
    }
    assert(all.take(questions.len() as int) =~= all);
}

/// Appends the wire forms of `records`, in order, to `out`.
pub fn write_records(out: &mut Vec<u8>, records: &Vec<Record>)
    requires
        records_wf(records_view(records@)),
    ensures
        final(out)@ == old(out)@ + spec_encode_records(records_view(records@)),
{
    let ghost all = records_view(records@);
    let mut i: usize = 0;
    assert(all.take(0) =~= Seq::<RecordView>::empty());
    assert(out@ =~= old(out)@ + spec_encode_records(all.take(0)));
    while i < records.len()
        invariant
            i <= records.len(),
            all == records_view(records@),
            records_wf(all),
            out@ == old(out)@ + spec_encode_records(all.take(i as int)),
        decreases records.len() - i,
    {
        assert(all[i as int] == records@[i as int]@);
        assert(all[i as int].wf());
        write_record(out, &records[i]);
        proof {
            assert(all.take(i + 1) =~= all.take(i as int).push(all[i as int]));
            lemma_encode_records_push(all.take(i as int), all[i as int]);
            assert(out@ =~= old(out)@ + spec_encode_records(all.take(i + 1)));
        }
        i = i + 1;
    }
    assert(all.take(records.len() as int) =~= all);
}

/// The wire forms of the questions of one section as one run of bytes.
pub fn monolithize_questions(questions: &Vec<Question>) -> (bytes: Vec<u8>)
    requires
        questions_wf(questions_view(questions@)),
    ensures
        bytes@ == spec_encode_questions(questions_view(questions@)),
{
    let mut out: Vec<u8> = Vec::new();
    write_questions(&mut out, questions);
    assert(out@ =~= spec_encode_questions(questions_view(questions@)));
    out
}

/// The wire forms of the records of one section as one run of bytes.
pub fn monolithize_records(records: &Vec<Record>) -> (bytes: Vec<u8>)
    requires
        records_wf(records_view(records@)),
    ensures
        bytes@ == spec_encode_records(records_view(records@)),
{
    let mut out: Vec<u8> = Vec::new();
    write_records(&mut out, records);
    assert(out@ =~= spec_encode_records(records_view(records@)));
    out
}

/// Tells whether every question of the section can be written to the wire.
pub fn questions_well_formed(questions: &Vec<Question>) -> (b: bool)
    ensures
        b == questions_wf(questions_view(questions@)),
{
    let ghost all = questions_view(questions@);
    let mut i: usize = 0;
    while i < questions.len()
        invariant
            i <= questions.len(),
            all == questions_view(questions@),
            forall|j: int| 0 <= j < i ==> (#[trigger] all[j]).wf(),
        decreases questions.len() - i,
    {
        assert(all[i as int] == questions@[i as int]@);
        if !questions[i].is_well_formed() {
            return false;
        }
        i = i + 1;
    }
    true
}

/// Tells whether every record of the section can be written to the wire.
pub fn records_well_formed(records: &Vec<Record>) -> (b: bool)
    ensures
        b == records_wf(records_view(records@)),
{
    let ghost all = records_view(records@);
    let mut i: usize = 0;
    while i < records.len()
        invariant
            i <= records.len(),
            all == records_view(records@),
            forall|j: int| 0 <= j < i ==> (#[trigger] all[j]).wf(),
        decreases records.len() - i,
    {
        assert(all[i as int] == records@[i as int]@);
        if !records[i].is_well_formed() {
            return false;
        }
        i = i + 1;
    }
    true
}

impl DNSPacket {
    /// Puts a message together from its parts.
    pub fn new(
        header: Header,
        questions: Vec<Question>,
        answers: Vec<Record>,
        authorities: Vec<Record>,
        additionals: Vec<Record>,
    ) -> (p: Self)
        ensures
            p.header == header,
            p.questions == questions,
            p.answers == answers,
            p.authorities == authorities,
            p.additionals == additionals,
    {
        Self { header, questions, answers, authorities, additionals }
    }

    /// The header and every entry can be written to the wire.
    pub open spec fn wf(&self) -> bool {
        self@.wf()
    }

    /// Tells whether the header and every entry can be written to the wire.
    pub fn is_well_formed(&self) -> (b: bool)
        ensures
            b == self.wf(),
    {
        self.header.is_well_formed() && questions_well_formed(&self.questions)
            && records_well_formed(&self.answers) && records_well_formed(&self.authorities)
            && records_well_formed(&self.additionals)
    }

    /// Tells whether each count in the header is the number of entries in
    /// its section.
    pub fn counts_match(&self) -> (b: bool)
        ensures
            b == self@.counts_match(),
    {
        self.questions.len() == self.header.qd_count as usize && self.answers.len()
            == self.header.an_count as usize && self.authorities.len()
            == self.header.ns_count as usize && self.additionals.len()
            == self.header.ar_count as usize
    }

    /// Turns the message into its bytes: the header, then the four sections,
    /// nothing compressed. A message whose header counts disagree with its
    /// sections is not written: the result is `MalformedCounts`.
    pub fn serialize(&self) -> (r: Result<Vec<u8>, DnsError>)
        requires
            self.wf(),
        ensures
            self@.counts_match() ==> r is Ok && r->Ok_0@ == spec_encode_packet(self@),
            !self@.counts_match() ==> r == Err::<Vec<u8>, DnsError>(DnsError::MalformedCounts),
    {
        if !self.counts_match() {
            return Err(DnsError::MalformedCounts);
        }
        let mut out: Vec<u8> = Vec::new();
        write_header(&mut out, &self.header);
        write_questions(&mut out, &self.questions);
        write_records(&mut out, &self.answers);
        write_records(&mut out, &self.authorities);
        write_records(&mut out, &self.additionals);
        assert(out@ =~= spec_encode_packet(self@));
        Ok(out)
    }
}

/// Questions that were read are as many as were asked for.
pub proof fn lemma_parsed_questions_len(buf: Seq<u8>, pos: usize, count: nat)
    requires
        spec_parse_questions(buf, pos, count) is Ok,
    ensures
        spec_parse_questions(buf, pos, count)->Ok_0.0.len() == count,
    decreases count,
{
    if count > 0 {
        let consumed = spec_decode_question(buf, pos)->Ok_0.1;
        lemma_parsed_questions_len(buf, (pos + consumed) as usize, (count - 1) as nat);
    }
}

/// Records that were read are as many as were asked for.
pub proof fn lemma_parsed_records_len(buf: Seq<u8>, pos: usize, count: nat)
    requires
        spec_parse_records(buf, pos, count) is Ok,
    ensures
        spec_parse_records(buf, pos, count)->Ok_0.0.len() == count,
    decreases count,
{
    if count > 0 {
        let consumed = spec_decode_record(buf, pos)->Ok_0.1;
        lemma_parsed_records_len(buf, (pos + consumed) as usize, (count - 1) as nat);
    }
}

/// In every message that parses, each count of the header is the number of
/// entries in its section: a buffer that holds fewer or more entries than
/// its header counts does not parse.
pub proof fn lemma_parsed_counts_match(buf: Seq<u8>, start: usize)
    requires
        spec_parse_packet(buf, start) is Ok,
    ensures
        spec_parse_packet(buf, start)->Ok_0.counts_match(),
{
    let header = spec_decode_header(buf, start)->Ok_0;
    let qd = spec_parse_questions(buf, (start + 12) as usize, header.qd_count as nat);
    lemma_parsed_questions_len(buf, (start + 12) as usize, header.qd_count as nat);
    let an = spec_parse_records(buf, qd->Ok_0.1, header.an_count as nat);
    lemma_parsed_records_len(buf, qd->Ok_0.1, header.an_count as nat);
    let ns = spec_parse_records(buf, an->Ok_0.1, header.ns_count as nat);
    lemma_parsed_records_len(buf, an->Ok_0.1, header.ns_count as nat);
    lemma_parsed_records_len(buf, ns->Ok_0.1, header.ar_count as nat);
}

/// Wherever the encodings of well-formed questions lie one behind the other
/// in a buffer, reading as many questions at that place gives them back and
/// ends behind the last.
pub proof fn lemma_parse_encoded_questions(buf: Seq<u8>, pos: usize, qs: Seq<QuestionView>)
    requires
        questions_wf(qs),
        buf.len() <= usize::MAX,
        pos + spec_encode_questions(qs).len() <= buf.len(),
        buf.subrange(pos as int, pos + spec_encode_questions(qs).len()) == spec_encode_questions(
            qs,
        ),
    ensures
        spec_parse_questions(buf, pos, qs.len()) == Ok::<(Seq<QuestionView>, usize), DnsError>(
            (qs, (pos + spec_encode_questions(qs).len()) as usize),
        ),
    decreases qs.len(),
{
    let enc = spec_encode_questions(qs);
    if qs.len() == 0 {
        assert(qs =~= Seq::<QuestionView>::empty());
        assert(enc.len() == 0);
    } else {
        let first = spec_encode_question(qs[0]);
        let rest = qs.drop_first();
        let tail = spec_encode_questions(rest);
        let n = first.len() as int;
        assert(enc =~= first + tail);
        assert forall|i: int| 0 <= i < enc.len() implies buf[pos + i] == enc[i] by {
            assert(buf.subrange(pos as int, pos + enc.len())[i] == buf[pos + i]);
        }
        assert(buf.subrange(pos as int, pos + n) =~= first) by {
            assert forall|i: int| 0 <= i < n implies buf[pos + i] == first[i] by {
                assert(enc[i] == first[i]);
            }
        }
        assert(qs[0].wf());
        lemma_question_decode_at(buf, pos, qs[0]);
        let next = (pos + n) as usize;
        assert(buf.subrange(next as int, next + tail.len()) =~= tail) by {
            assert forall|i: int| 0 <= i < tail.len() implies buf[next + i] == tail[i] by {
                assert(buf[pos + (n + i)] == enc[n + i]);
            }
        }
        assert(questions_wf(rest)) by {
            assert forall|i: int| 0 <= i < rest.len() implies (#[trigger] rest[i]).wf() by {
                assert(rest[i] == qs[i + 1]);
            }
        }
        lemma_parse_encoded_questions(buf, next, rest);
        assert(seq![qs[0]] + rest =~= qs);
    }
}

/// Wherever the encodings of well-formed records lie one behind the other in
/// a buffer, reading as many records at that place gives them back and ends
/// behind the last.
pub proof fn lemma_parse_encoded_records(buf: Seq<u8>, pos: usize, rs: Seq<RecordView>)
    requires
        records_wf(rs),
        buf.len() <= usize::MAX,
        pos + spec_encode_records(rs).len() <= buf.len(),
        buf.subrange(pos as int, pos + spec_encode_records(rs).len()) == spec_encode_records(rs),
    ensures
        spec_parse_records(buf, pos, rs.len()) == Ok::<(Seq<RecordView>, usize), DnsError>(
            (rs, (pos + spec_encode_records(rs).len()) as usize),
        ),
    decreases rs.len(),
{
    let enc = spec_encode_records(rs);
    if rs.len() == 0 {
        assert(rs =~= Seq::<RecordView>::empty());
        assert(enc.len() == 0);
    } else {
        let first = spec_encode_record(rs[0]);
        let rest = rs.drop_first();
        let tail = spec_encode_records(rest);
        let n = first.len() as int;
        assert(enc =~= first + tail);
        assert forall|i: int| 0 <= i < enc.len() implies buf[pos + i] == enc[i] by {
            assert(buf.subrange(pos as int, pos + enc.len())[i] == buf[pos + i]);
        }
        assert(buf.subrange(pos as int, pos + n) =~= first) by {
            assert forall|i: int| 0 <= i < n implies buf[pos + i] == first[i] by {
                assert(enc[i] == first[i]);
            }
        }
        assert(rs[0].wf());
        lemma_record_decode_at(buf, pos, rs[0]);
        let next = (pos + n) as usize;
        assert(buf.subrange(next as int, next + tail.len()) =~= tail) by {
            assert forall|i: int| 0 <= i < tail.len() implies buf[next + i] == tail[i] by {
                assert(buf[pos + (n + i)] == enc[n + i]);
            }
        }
        assert(records_wf(rest)) by {
            assert forall|i: int| 0 <= i < rest.len() implies (#[trigger] rest[i]).wf() by {
                assert(rest[i] == rs[i + 1]);
            }
        }
        lemma_parse_encoded_records(buf, next, rest);
        assert(seq![rs[0]] + rest =~= rs);
    }
}

/// A message parses to the parts that its header and its four sections
/// parse to, one behind the other, where they fill the buffer.
proof fn lemma_parse_from_parts(
    buf: Seq<u8>,
    p: PacketView,
    at_a: usize,
    at_n: usize,
    at_r: usize,
)
    requires
        p.counts_match(),
        spec_decode_header(buf, 0) == Ok::<Header, DnsError>(p.header),
        spec_parse_questions(buf, 12, p.questions.len()) == Ok::<
            (Seq<QuestionView>, usize),
            DnsError,
        >((p.questions, at_a)),
        spec_parse_records(buf, at_a, p.answers.len()) == Ok::<
            (Seq<RecordView>, usize),
            DnsError,
        >((p.answers, at_n)),
        spec_parse_records(buf, at_n, p.authorities.len()) == Ok::<
            (Seq<RecordView>, usize),
            DnsError,
        >((p.authorities, at_r)),
        spec_parse_records(buf, at_r, p.additionals.len()) == Ok::<
            (Seq<RecordView>, usize),
            DnsError,
        >((p.additionals, buf.len() as usize)),
        buf.len() <= usize::MAX,
    ensures
        spec_parse_packet(buf, 0) == Ok::<PacketView, DnsError>(p),
{
    assert(p.header.qd_count as nat == p.questions.len());
    assert(p.header.an_count as nat == p.answers.len());
    assert(p.header.ns_count as nat == p.authorities.len());
    assert(p.header.ar_count as nat == p.additionals.len());
}

/// Where each part of an encoded message lies in it.
proof fn lemma_packet_layout(p: PacketView)
    ensures
        ({
            let buf = spec_encode_packet(p);
            let q = spec_encode_questions(p.questions);
            let a = spec_encode_records(p.answers);
            let n = spec_encode_records(p.authorities);
            let r = spec_encode_records(p.additionals);
            let at_a = 12 + q.len() as int;
            let at_n = at_a + a.len() as int;
            let at_r = at_n + n.len() as int;
            &&& buf.len() == at_r + r.len()
            &&& buf.subrange(0, 12) == spec_encode_header(p.header)
            &&& buf.subrange(12, at_a) == q
            &&& buf.subrange(at_a, at_n) == a
            &&& buf.subrange(at_n, at_r) == n
            &&& buf.subrange(at_r, at_r + r.len() as int) == r
        }),
{
    let buf = spec_encode_packet(p);
    let h = spec_encode_header(p.header);
    let q = spec_encode_questions(p.questions);
    let a = spec_encode_records(p.answers);
    let n = spec_encode_records(p.authorities);
    let r = spec_encode_records(p.additionals);
    let at_a = 12 + q.len() as int;
    let at_n = at_a + a.len() as int;
    let at_r = at_n + n.len() as int;
    lemma_header_len(p.header);
    assert(buf.subrange(0, 12) =~= h);
    assert(buf.subrange(12, at_a) =~= q);
    assert(buf.subrange(at_a, at_n) =~= a);
    assert(buf.subrange(at_n, at_r) =~= n);
    assert(buf.subrange(at_r, at_r + r.len() as int) =~= r);
}

/// Parsing the bytes of a well-formed message whose header counts are the
/// lengths of its sections gives the message back.
pub proof fn lemma_packet_roundtrip(p: PacketView)
    requires
        p.wf(),
        p.counts_match(),
        spec_encode_packet(p).len() <= usize::MAX,
    ensures
        spec_parse_packet(spec_encode_packet(p), 0) == Ok::<PacketView, DnsError>(p),
{
    let buf = spec_encode_packet(p);
    let q = spec_encode_questions(p.questions);
    let a = spec_encode_records(p.answers);
    let n = spec_encode_records(p.authorities);
    let r = spec_encode_records(p.additionals);
    lemma_packet_layout(p);
    let at_a = (12 + q.len()) as usize;
    let at_n = (at_a + a.len()) as usize;
    let at_r = (at_n + n.len()) as usize;
    lemma_header_decode_at(buf, 0, p.header);
    lemma_parse_encoded_questions(buf, 12, p.questions);
    lemma_parse_encoded_records(buf, at_a, p.answers);
    lemma_parse_encoded_records(buf, at_n, p.authorities);
    lemma_parse_encoded_records(buf, at_r, p.additionals);
    lemma_parse_from_parts(buf, p, at_a, at_n, at_r);
}

} // verus!

use dns_proxy::error::DnsError;
use dns_proxy::header::Header;
use dns_proxy::name::Name;
use dns_proxy::packet::{
    monolithize_questions, monolithize_records, questions_well_formed, records_well_formed,
    write_questions, write_records, DNSPacket,
};
use dns_proxy::parser::{parse_packet, PacketParser};
use dns_proxy::question::Question;
use dns_proxy::record::Record;

fn name(labels: &[&str]) -> Name {
    Name { labels: labels.iter().map(|l| l.as_bytes().to_vec()).collect() }
}

fn address_record(host: &[&str], ip: [u8; 4]) -> Record {
    Record { name: name(host), ty: 1, class: 1, ttl: 300, rdlength: 4, rdata: ip.to_vec() }
}

fn header(id: u16, qd: u16, an: u16, ns: u16, ar: u16) -> Header {
    Header {
        id,
        qr: 1,
        rd: 1,
        ra: 1,
        qd_count: qd,
        an_count: an,
        ns_count: ns,
        ar_count: ar,
        ..Header::default()
    }
}

fn full_packet() -> DNSPacket {
    DNSPacket::new(
        header(0xBEEF, 1, 2, 1, 1),
        vec![Question { name: name(&["example", "com"]), ty: 1, class: 1 }],
        vec![
            address_record(&["example", "com"], [93, 184, 216, 34]),
            address_record(&["example", "com"], [93, 184, 216, 35]),
        ],
        vec![Record {
            name: name(&["com"]),
            ty: 2,
            class: 1,
            ttl: 7,
            rdlength: 3,
            rdata: vec![1, b'a', 0],
        }],
        vec![Record { name: name(&[]), ty: 41, class: 4096, ttl: 0, rdlength: 0, rdata: vec![] }],
    )
}

#[test]
fn new_keeps_its_parts() {
    let p = full_packet();
    assert_eq!(p.header.id, 0xBEEF);
    assert_eq!(p.questions.len(), 1);
    assert_eq!(p.answers.len(), 2);
    assert_eq!(p.authorities.len(), 1);
    assert_eq!(p.additionals.len(), 1);
}

#[test]
fn serialize_is_header_then_sections() {
    let p = DNSPacket::new(
        header(1, 1, 1, 0, 0),
        vec![Question { name: name(&["a"]), ty: 1, class: 1 }],
        vec![address_record(&["a"], [1, 2, 3, 4])],
        vec![],
        vec![],
    );
    let mut expected = vec![0u8, 1, 0x81, 0x80, 0, 1, 0, 1, 0, 0, 0, 0];
    expected.extend_from_slice(b"\x01a\x00\x00\x01\x00\x01");
    expected.extend_from_slice(b"\x01a\x00\x00\x01\x00\x01\x00\x00\x01\x2C\x00\x04");
    expected.extend_from_slice(&[1, 2, 3, 4]);
    assert_eq!(p.serialize(), Ok(expected));
}

#[test]
fn packet_round_trips() {
    let p = full_packet();
    assert!(p.is_well_formed());
    assert!(p.counts_match());
    let bytes = p.serialize().unwrap();
    assert_eq!(parse_packet(&bytes), Ok(p));
}

#[test]
fn empty_packet_round_trips() {
    let p = DNSPacket::new(header(7, 0, 0, 0, 0), vec![], vec![], vec![], vec![]);
    let bytes = p.serialize().unwrap();
    assert_eq!(bytes.len(), 12);
    assert_eq!(parse_packet(&bytes), Ok(p));
}

#[test]
fn serialize_refuses_counts_that_disagree() {
    let mut p = full_packet();
    p.header.an_count = 3;
    assert!(!p.counts_match());
    assert_eq!(p.serialize(), Err(DnsError::MalformedCounts));
    let mut q = full_packet();
    q.questions.clear();
    assert_eq!(q.serialize(), Err(DnsError::MalformedCounts));
    let mut r = full_packet();
    r.additionals.push(address_record(&["x"], [0, 0, 0, 0]));
    assert_eq!(r.serialize(), Err(DnsError::MalformedCounts));
    let mut s = full_packet();
    s.header.ns_count = 0;
    assert_eq!(s.serialize(), Err(DnsError::MalformedCounts));
}

#[test]
fn two_answers_declared_one_present_fails() {
    let one = DNSPacket::new(
        header(5, 1, 1, 0, 0),
        vec![Question { name: name(&["a", "b"]), ty: 1, class: 1 }],
        vec![address_record(&["a", "b"], [1, 1, 1, 1])],
        vec![],
        vec![],
    );
    let mut bytes = one.serialize().unwrap();
    bytes[7] = 2;
    assert_eq!(parse_packet(&bytes), Err(DnsError::TruncatedBuffer));
}

#[test]
fn second_answer_cut_short_fails() {
    let two = DNSPacket::new(
        header(5, 0, 2, 0, 0),
        vec![],
        vec![address_record(&["a"], [1, 1, 1, 1]), address_record(&["a"], [2, 2, 2, 2])],
        vec![],
        vec![],
    );
    let bytes = two.serialize().unwrap();
    // inside the data of the second record
    assert_eq!(parse_packet(&bytes[..bytes.len() - 1]), Err(DnsError::TruncatedBuffer));
    // inside its fixed fields
    let first_end = 12 + 17;
    assert_eq!(
        parse_packet(&bytes[..first_end + 3 + 4]),
        Err(DnsError::OutOfBounds { offset: first_end + 3, len: first_end + 7 })
    );
}

#[test]
fn entries_beyond_the_counts_fail() {
    let mut bytes = full_packet().serialize().unwrap();
    bytes.push(0);
    assert_eq!(parse_packet(&bytes), Err(DnsError::MalformedCounts));
    let mut fewer = full_packet().serialize().unwrap();
    fewer[11] = 0;
    assert_eq!(parse_packet(&fewer), Err(DnsError::MalformedCounts));
}

#[test]
fn short_datagram_is_out_of_bounds() {
    assert_eq!(parse_packet(&[0u8; 11]), Err(DnsError::OutOfBounds { offset: 0, len: 11 }));
    assert_eq!(parse_packet(&[]), Err(DnsError::OutOfBounds { offset: 0, len: 0 }));
}

fn compressed_response() -> Vec<u8> {
    let mut buf = vec![0x12, 0x34, 0x81, 0x80, 0, 1, 0, 2, 0, 0, 0, 0];
    buf.extend_from_slice(b"\x06google\x03com\x00\x00\x01\x00\x01");
    buf.extend_from_slice(&[0xC0, 12, 0, 1, 0, 1, 0, 0, 0, 60, 0, 4, 8, 8, 8, 8]);
    buf.extend_from_slice(b"\x03www");
    buf.extend_from_slice(&[0xC0, 12, 0, 5, 0, 1, 0, 0, 0, 61, 0, 2, 0xC0, 12]);
    buf
}

#[test]
fn compressed_names_expand_across_sections() {
    let p = parse_packet(&compressed_response()).unwrap();
    assert_eq!(p.header.id, 0x1234);
    assert_eq!(p.questions, vec![Question { name: name(&["google", "com"]), ty: 1, class: 1 }]);
    assert_eq!(
        p.answers,
        vec![
            Record {
                name: name(&["google", "com"]),
                ty: 1,
                class: 1,
                ttl: 60,
                rdlength: 4,
                rdata: vec![8, 8, 8, 8],
            },
            Record {
                name: name(&["www", "google", "com"]),
                ty: 5,
                class: 1,
                ttl: 61,
                rdlength: 2,
                rdata: vec![0xC0, 12],
            },
        ]
    );
    assert!(p.is_well_formed());
    assert!(p.counts_match());
}

#[test]
fn reserialized_packet_is_uncompressed_and_parses_to_the_same() {
    let p = parse_packet(&compressed_response()).unwrap();
    let bytes = p.serialize().unwrap();
    assert!(bytes.len() > compressed_response().len());
    assert_eq!(parse_packet(&bytes), Ok(p));
}

#[test]
fn parser_cursor_moves_with_each_read() {
    let buf = compressed_response();
    let mut parser = PacketParser::new(&buf);
    assert_eq!(parser.position(), 0);
    assert_eq!(parser.advance_n(12), Ok(&buf[..12]));
    assert_eq!(parser.position(), 12);
    assert_eq!(parser.get_name_length(), Ok(12));
    assert_eq!(parser.position(), 12);
    assert_eq!(parser.parse_name(), Ok(name(&["google", "com"])));
    assert_eq!(parser.position(), 24);
    assert_eq!(parser.advance_n(4), Ok(&buf[24..28]));
    assert_eq!(parser.get_name_length(), Ok(2));
    assert_eq!(parser.parse_name(), Ok(name(&["google", "com"])));
    assert_eq!(parser.position(), 30);
    assert_eq!(parser.advance_n(14), Ok(&buf[30..44]));
    let rest = parser.parse_record(1).unwrap();
    assert_eq!(rest.len(), 1);
    assert_eq!(rest[0].name, name(&["www", "google", "com"]));
    assert_eq!(parser.position(), buf.len());
    assert_eq!(parser.advance_n(0), Ok(&buf[buf.len()..]));
    assert_eq!(
        parser.advance_n(1),
        Err(DnsError::OutOfBounds { offset: buf.len(), len: buf.len() })
    );
    assert_eq!(parser.position(), buf.len());
}

#[test]
fn failed_reads_leave_the_cursor() {
    let buf = compressed_response();
    let mut parser = PacketParser::new(&buf);
    assert_eq!(
        parser.advance_n(buf.len() + 1),
        Err(DnsError::OutOfBounds { offset: 0, len: buf.len() })
    );
    assert_eq!(
        parser.advance_n(usize::MAX),
        Err(DnsError::OutOfBounds { offset: 0, len: buf.len() })
    );
    assert_eq!(parser.position(), 0);
    parser.advance_n(12).unwrap();
    // more questions are asked for than the buffer can hold
    assert!(parser.parse_question(50).is_err());
    assert_eq!(parser.position(), 12);
    assert_eq!(parser.parse_question(1).unwrap().len(), 1);
    assert_eq!(parser.position(), 28);
    assert_eq!(parser.parse_record(3), Err(DnsError::TruncatedBuffer));
    assert_eq!(parser.position(), 28);
    assert_eq!(parser.parse_record(0), Ok(vec![]));
    assert_eq!(parser.position(), 28);
    assert_eq!(parser.parse_record(2).unwrap().len(), 2);
    assert_eq!(parser.parse_name(), Err(DnsError::TruncatedBuffer));
    assert_eq!(parser.get_name_length(), Err(DnsError::TruncatedBuffer));
    assert_eq!(parser.position(), buf.len());
}

#[test]
fn deserialize_reads_the_whole_buffer_or_nothing() {
    let buf = compressed_response();
    let mut parser = PacketParser::new(&buf);
    let p = parser.deserialize().unwrap();
    assert_eq!(p.answers.len(), 2);
    assert_eq!(parser.position(), buf.len());
    let cut = &buf[..buf.len() - 1];
    let mut short = PacketParser::new(cut);
    assert_eq!(short.deserialize(), Err(DnsError::TruncatedBuffer));
    assert_eq!(short.position(), 0);
}

#[test]
fn pointer_loop_inside_a_packet_fails() {
    let mut buf = vec![0, 1, 0, 0, 0, 1, 0, 0, 0, 0, 0, 0];
    buf.extend_from_slice(&[0xC0, 12, 0, 1, 0, 1]);
    assert_eq!(parse_packet(&buf), Err(DnsError::CompressionLoop));
}

#[test]
fn sections_as_one_run_of_bytes() {
    let p = full_packet();
    let q = monolithize_questions(&p.questions);
    let a = monolithize_records(&p.answers);
    assert_eq!(q, b"\x07example\x03com\x00\x00\x01\x00\x01".to_vec());
    assert_eq!(a.len(), 2 * (13 + 10 + 4));
    assert_eq!(monolithize_records(&vec![]), Vec::<u8>::new());
    assert_eq!(monolithize_questions(&vec![]), Vec::<u8>::new());
    let bytes = p.serialize().unwrap();
    assert_eq!(&bytes[12..12 + q.len()], &q[..]);
    assert_eq!(&bytes[12 + q.len()..12 + q.len() + a.len()], &a[..]);
    let mut out = vec![1u8];
    write_questions(&mut out, &p.questions);
    write_records(&mut out, &p.answers);
    assert_eq!(out.len(), 1 + q.len() + a.len());
    assert_eq!(&out[1..1 + q.len()], &q[..]);
}

#[test]
fn well_formedness_of_packets() {
    let p = full_packet();
    assert!(questions_well_formed(&p.questions));
    assert!(records_well_formed(&p.answers));
    let mut bad_header = full_packet();
    bad_header.header.opcode = 16;
    assert!(!bad_header.is_well_formed());
    let mut bad_question = full_packet();
    bad_question.questions[0].name.labels.push(vec![]);
    assert!(!bad_question.is_well_formed());
    assert!(!questions_well_formed(&bad_question.questions));
    let mut bad_record = full_packet();
    bad_record.authorities[0].rdlength = 2;
    assert!(!bad_record.is_well_formed());
    assert!(!records_well_formed(&bad_record.authorities));
    let mut bad_additional = full_packet();
    bad_additional.additionals[0].rdata.push(1);
    assert!(!bad_additional.is_well_formed());
}

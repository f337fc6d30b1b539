use dns_proxy::error::DnsError;
use dns_proxy::header::{decode_header, encode_header, write_header, Header};
use dns_proxy::wire::{read_u16, read_u32, write_u16, write_u32};

fn sample() -> Header {
    Header {
        id: 0x1234,
        qr: 1,
        opcode: 0b1010,
        aa: 0,
        tc: 1,
        rd: 1,
        ra: 1,
        z: 0b101,
        r_code: 0b0011,
        qd_count: 1,
        an_count: 0x0203,
        ns_count: 0,
        ar_count: 0xFFFF,
    }
}

#[test]
fn header_bytes_are_big_endian_and_bit_packed() {
    let bytes = encode_header(&sample());
    assert_eq!(
        bytes,
        vec![0x12, 0x34, 0b1_1010_0_1_1, 0b1_101_0011, 0, 1, 2, 3, 0, 0, 0xFF, 0xFF]
    );
}

#[test]
fn each_flag_has_its_own_bit() {
    let zero = Header::default();
    let byte = |h: Header, i: usize| encode_header(&h)[i];
    assert_eq!(byte(Header { qr: 1, ..zero }, 2), 0x80);
    assert_eq!(byte(Header { opcode: 15, ..zero }, 2), 0x78);
    assert_eq!(byte(Header { aa: 1, ..zero }, 2), 0x04);
    assert_eq!(byte(Header { tc: 1, ..zero }, 2), 0x02);
    assert_eq!(byte(Header { rd: 1, ..zero }, 2), 0x01);
    assert_eq!(byte(Header { ra: 1, ..zero }, 3), 0x80);
    assert_eq!(byte(Header { z: 7, ..zero }, 3), 0x70);
    assert_eq!(byte(Header { r_code: 15, ..zero }, 3), 0x0F);
}

#[test]
fn header_round_trips() {
    let h = sample();
    assert_eq!(decode_header(&encode_header(&h), 0), Ok(h));
}

#[test]
fn every_flags_pair_round_trips() {
    for hi in 0..=255u8 {
        for lo in [0u8, 1, 0x0F, 0x10, 0x70, 0x7F, 0x80, 0xFF] {
            let bytes = [0xAB, 0xCD, hi, lo, 0, 0, 0, 0, 0, 0, 0, 0];
            let h = decode_header(&bytes, 0).unwrap();
            assert!(h.is_well_formed());
            assert_eq!(encode_header(&h), bytes.to_vec());
        }
    }
}

#[test]
fn reserved_bits_are_kept() {
    let bytes = [0, 0, 0, 0b0_111_0000, 0, 0, 0, 0, 0, 0, 0, 0];
    let h = decode_header(&bytes, 0).unwrap();
    assert_eq!(h.z, 7);
    assert_eq!(h.ra, 0);
    assert_eq!(h.r_code, 0);
}

#[test]
fn header_decodes_at_an_offset() {
    let mut buf = vec![0xEEu8; 3];
    buf.extend_from_slice(&encode_header(&sample()));
    assert_eq!(decode_header(&buf, 3), Ok(sample()));
}

#[test]
fn short_header_is_out_of_bounds() {
    let bytes = encode_header(&sample());
    assert_eq!(
        decode_header(&bytes[..11], 0),
        Err(DnsError::OutOfBounds { offset: 0, len: 11 })
    );
    assert_eq!(decode_header(&bytes, 1), Err(DnsError::OutOfBounds { offset: 1, len: 12 }));
    assert_eq!(decode_header(&bytes, 13), Err(DnsError::OutOfBounds { offset: 13, len: 12 }));
    assert_eq!(decode_header(&[], 0), Err(DnsError::OutOfBounds { offset: 0, len: 0 }));
}

#[test]
fn well_formedness_of_headers() {
    assert!(sample().is_well_formed());
    assert!(!Header { qr: 2, ..sample() }.is_well_formed());
    assert!(!Header { opcode: 16, ..sample() }.is_well_formed());
    assert!(!Header { z: 8, ..sample() }.is_well_formed());
    assert!(!Header { r_code: 16, ..sample() }.is_well_formed());
    assert!(!Header { rd: 2, ..sample() }.is_well_formed());
}

#[test]
fn write_header_appends() {
    let mut out = vec![7u8];
    write_header(&mut out, &Header::default());
    assert_eq!(out, vec![7u8, 0, 0, 0, 0, 0, 0, 0, 0, 0, 0, 0, 0]);
}

#[test]
fn integers_are_big_endian() {
    let mut out = Vec::new();
    write_u16(&mut out, 0x0102);
    write_u32(&mut out, 0x0A0B0C0D);
    assert_eq!(out, vec![1u8, 2, 0x0A, 0x0B, 0x0C, 0x0D]);
    assert_eq!(read_u16(&out, 0), 0x0102);
    assert_eq!(read_u16(&out, 1), 0x020A);
    assert_eq!(read_u32(&out, 2), 0x0A0B0C0D);
    let mut max = Vec::new();
    write_u16(&mut max, u16::MAX);
    write_u32(&mut max, u32::MAX);
    assert_eq!(max, vec![0xFFu8; 6]);
    assert_eq!(read_u16(&max, 0), u16::MAX);
    assert_eq!(read_u32(&max, 2), u32::MAX);
}

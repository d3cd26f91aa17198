use dns_resolver::header::DNSHeader;
use dns_resolver::name::decode_dns_name;
use dns_resolver::name::encode_dns_name;
use dns_resolver::packet::DNSPacket;
use dns_resolver::query::build_query;
use dns_resolver::question::DNSQuestion;
use dns_resolver::record::DNSRecord;
use dns_resolver::DnsError;

#[test]
fn test_build_query() {
    let bytes = build_query(b"www.example.com".to_vec(), 1);
    let expected =
        b"\x00\x00\x00\x01\x00\x00\x00\x00\x00\x00\x03www\x07example\x03com\x00\x00\x01\x00\x01";
    let bytes_without_random_id = &bytes[2..];
    assert_eq!(bytes_without_random_id, expected);
}

#[test]
fn test_dns_header_to_be_bytes() {
    let header = DNSHeader {
        id: 0x1234,
        flags: 0x5678,
        num_questions: 0x9abc,
        num_answers: 0xdef0,
        num_authorities: 0x1234,
        num_additionals: 0x5678,
    };
    let expected = vec![
        0x12, 0x34, 0x56, 0x78, 0x9a, 0xbc, 0xde, 0xf0, 0x12, 0x34, 0x56, 0x78,
    ];
    assert_eq!(header.to_be_bytes(), expected);
}

#[test]
fn test_dns_reader_parse() {
    let bytes = b"\x12\x34\x56\x78\x9a\xbc\xde\xf0\x12\x34\x56\x78".to_vec();
    let (header, _) = DNSHeader::parse(&bytes, 0).unwrap();
    let expected = DNSHeader {
        id: 0x1234,
        flags: 0x5678,
        num_questions: 0x9abc,
        num_answers: 0xdef0,
        num_authorities: 0x1234,
        num_additionals: 0x5678,
    };
    assert_eq!(header, expected);
}

#[test]
fn test_dns_question_to_be_bytes() {
    let question = DNSQuestion {
        name: b"www.example.com".to_vec(),
        type_: 0x1234,
        class: 0x5678,
    };
    let expected = b"\x03www\x07example\x03com\x00\x12\x34\x56\x78";
    assert_eq!(question.to_be_bytes(), expected);
}

#[test]
fn test_parse_dns_question() {
    let bytes = b"\x03www\x07example\x03com\x00\x12\x34\x56\x78".to_vec();
    let (question, _) = DNSQuestion::parse(&bytes, 0).unwrap();
    let expected = DNSQuestion {
        name: b"www.example.com".to_vec(),
        type_: 0x1234,
        class: 0x5678,
    };
    assert_eq!(question, expected);
}

#[test]
fn test_dns_question_parse_invalid_high_bits() {
    let bytes = b"\x80\x00\x00\x00\x00".to_vec();
    assert!(matches!(
        DNSQuestion::parse(&bytes, 0),
        Err(DnsError::InvalidLabel)
    ));
}

#[test]
fn test_encode_dns_name() {
    let name = b"www.example.com".to_vec();
    let bytes = encode_dns_name(&name);
    let expected = b"\x03www\x07example\x03com\x00";
    assert_eq!(bytes, expected);
}

#[test]
fn test_decode_dns_name() {
    let bytes = b"\x03www\x07example\x03com\x00".to_vec();
    let (name, _) = decode_dns_name(&bytes, 0).unwrap();
    let expected = b"www.example.com".to_vec();
    assert_eq!(name, expected);
}

#[test]
fn test_decode_compressed_dns_name() {
    let bytes = b"\x00\x03www\x07example\x03com\x00\xc0\x01".to_vec();
    let (name, _) = decode_dns_name(&bytes, 18).unwrap();
    let expected = b"www.example.com".to_vec();
    assert_eq!(name, expected);
}

#[test]
fn test_decode_dns_name_invalid_high_bits() {
    // 0b10xxxxxx is reserved and should error
    let bytes = b"\x80".to_vec();
    assert!(matches!(
        decode_dns_name(&bytes, 0),
        Err(DnsError::InvalidLabel)
    ));
}

#[test]
fn test_dns_record() {
    let bytes =
        b"\x03www\x07example\x03com\x00\x12\x34\x56\x78\x9a\xbc\xde\xf0\x00\x02\x01\x02".to_vec();
    let (record, _) = DNSRecord::parse(&bytes, 0).unwrap();
    let expected = DNSRecord {
        name: b"www.example.com".to_vec(),
        type_: 0x1234,
        class: 0x5678,
        ttl: 0x9abcdef0,
        data: vec![1, 2],
    };
    assert_eq!(record, expected);
}

#[test]
fn test_packet_parse_single_answer() {
    // A header declaring one answer and nothing else, then one A record
    // for www.example.com with ttl 60 and payload 1.2.3.4.
    let mut bytes: Vec<u8> = Vec::new();
    bytes.extend_from_slice(b"\x00\x00\x00\x00\x00\x00\x00\x01\x00\x00\x00\x00");
    bytes.extend_from_slice(b"\x03www\x07example\x03com\x00");
    bytes.extend_from_slice(b"\x00\x01\x00\x01\x00\x00\x00\x3c\x00\x04\x01\x02\x03\x04");
    let packet = DNSPacket::parse(&bytes).unwrap();
    assert_eq!(packet.answers.len(), 1);
    let ip = packet.answers[0].parse_ip_address().unwrap();
    assert_eq!((ip.a, ip.b, ip.c, ip.d), (1, 2, 3, 4));
}

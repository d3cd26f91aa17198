use dns_resolver::header::DNSHeader;
use dns_resolver::name::decode_dns_name;
use dns_resolver::name::encode_dns_name;
use dns_resolver::packet::DNSPacket;
use dns_resolver::query::build_query_with_id;
use dns_resolver::record::DNSRecord;
use dns_resolver::resolve::decide_next;
use dns_resolver::resolve::Decision;
use dns_resolver::DnsError;
use dns_resolver::Ipv4;

fn record(type_: u16, data: Vec<u8>) -> DNSRecord {
    DNSRecord {
        name: b"example.com".to_vec(),
        type_,
        class: 1,
        ttl: 60,
        data,
    }
}

fn packet(answers: Vec<DNSRecord>, authorities: Vec<DNSRecord>, additionals: Vec<DNSRecord>) -> DNSPacket {
    DNSPacket {
        header: DNSHeader {
            id: 0,
            flags: 0,
            num_questions: 0,
            num_answers: answers.len() as u16,
            num_authorities: authorities.len() as u16,
            num_additionals: additionals.len() as u16,
        },
        questions: Vec::new(),
        answers,
        authorities,
        additionals,
    }
}

#[test]
fn name_round_trip() {
    for name in [
        b"www.example.com".to_vec(),
        b"a".to_vec(),
        b"a.bc.def.ghij".to_vec(),
        b"x-y.z_0.test".to_vec(),
    ] {
        let encoded = encode_dns_name(&name);
        let (decoded, end) = decode_dns_name(&encoded, 0).unwrap();
        assert_eq!(decoded, name);
        assert_eq!(end, encoded.len());
    }
}

#[test]
fn header_round_trip() {
    let header = DNSHeader {
        id: 0xffff,
        flags: 0x0001,
        num_questions: 0,
        num_answers: 0x8000,
        num_authorities: 7,
        num_additionals: 0x00ff,
    };
    let bytes = header.to_be_bytes();
    let (parsed, end) = DNSHeader::parse(&bytes, 0).unwrap();
    assert_eq!(parsed, header);
    assert_eq!(end, 12);
}

#[test]
fn compressed_name_matches_literal() {
    // The name is spelled out at offset 0; a pointer to offset 0 follows.
    let mut bytes = encode_dns_name(&b"www.example.com".to_vec());
    let pointer_pos = bytes.len();
    bytes.push(0xc0);
    bytes.push(0x00);
    let (literal, _) = decode_dns_name(&bytes, 0).unwrap();
    let (via_pointer, end) = decode_dns_name(&bytes, pointer_pos).unwrap();
    assert_eq!(via_pointer, literal);
    assert_eq!(end, pointer_pos + 2);
}

#[test]
fn nested_pointer_chain() {
    // "com" at offset 0; "example" + pointer at offset 5; "www" + pointer
    // at offset 15: each name ends in a pointer to the previous one.
    let bytes = b"\x03com\x00\x07example\xc0\x00\x03www\xc0\x05".to_vec();
    let (name, end) = decode_dns_name(&bytes, 15).unwrap();
    assert_eq!(name, b"www.example.com".to_vec());
    assert_eq!(end, bytes.len());
    let (middle, _) = decode_dns_name(&bytes, 5).unwrap();
    assert_eq!(middle, b"example.com".to_vec());
}

#[test]
fn reserved_pattern_01_rejected() {
    let bytes = b"\x41\x00\x00".to_vec();
    assert!(matches!(
        decode_dns_name(&bytes, 0),
        Err(DnsError::InvalidLabel)
    ));
}

#[test]
fn non_ascii_label_rejected() {
    let bytes = b"\x01\xff\x00".to_vec();
    assert!(matches!(
        decode_dns_name(&bytes, 0),
        Err(DnsError::InvalidLabel)
    ));
}

#[test]
fn pointer_to_itself_reported_as_loop() {
    let bytes = b"\xc0\x00".to_vec();
    assert!(matches!(
        decode_dns_name(&bytes, 0),
        Err(DnsError::PointerLoop)
    ));
}

#[test]
fn truncated_name_rejected() {
    let bytes = b"\x03ab".to_vec();
    assert!(matches!(
        decode_dns_name(&bytes, 0),
        Err(DnsError::Truncated)
    ));
}

#[test]
fn empty_name_decodes() {
    let bytes = b"\x00".to_vec();
    let (name, end) = decode_dns_name(&bytes, 0).unwrap();
    assert_eq!(name, Vec::<u8>::new());
    assert_eq!(end, 1);
}

#[test]
fn short_header_rejected() {
    let bytes = b"\x00\x01\x02".to_vec();
    assert!(matches!(
        DNSHeader::parse(&bytes, 0),
        Err(DnsError::Truncated)
    ));
}

#[test]
fn ns_record_has_no_address() {
    let rec = record(2, vec![1, 2, 3, 4]);
    assert!(matches!(rec.parse_ip_address(), Err(DnsError::NotARecord)));
}

#[test]
fn a_record_with_bad_length_rejected() {
    let rec = record(1, vec![1, 2, 3]);
    assert!(matches!(
        rec.parse_ip_address(),
        Err(DnsError::InvalidIpLength)
    ));
}

#[test]
fn a_record_has_no_nameserver_name() {
    let rec = record(1, vec![1, 2, 3, 4]);
    assert!(matches!(
        rec.parse_domain_name(),
        Err(DnsError::NotNsRecord)
    ));
}

#[test]
fn ns_record_payload_decodes_as_name() {
    let rec = record(2, encode_dns_name(&b"ns1.example.com".to_vec()));
    assert_eq!(rec.parse_domain_name().unwrap(), b"ns1.example.com".to_vec());
}

#[test]
fn query_bytes_exact() {
    let bytes = build_query_with_id(b"www.example.com".to_vec(), 1, 0);
    let expected =
        b"\x00\x00\x00\x00\x00\x01\x00\x00\x00\x00\x00\x00\x03www\x07example\x03com\x00\x00\x01\x00\x01";
    assert_eq!(bytes, expected);
}

#[test]
fn query_parses_back() {
    let bytes = build_query_with_id(b"www.example.com".to_vec(), 1, 0x1234);
    let packet = DNSPacket::parse(&bytes).unwrap();
    assert_eq!(packet.header.id, 0x1234);
    assert_eq!(packet.header.num_questions, 1);
    assert_eq!(packet.questions[0].name, b"www.example.com".to_vec());
    assert_eq!(packet.questions[0].type_, 1);
    assert_eq!(packet.questions[0].class, 1);
    assert_eq!(packet.answers.len(), 0);
}

#[test]
fn answer_wins_over_additional() {
    let p = packet(
        vec![record(1, vec![9, 9, 9, 9])],
        vec![record(2, encode_dns_name(&b"ns1.example.com".to_vec()))],
        vec![record(1, vec![5, 6, 7, 8])],
    );
    assert_eq!(
        decide_next(&p).unwrap(),
        Decision::Answer(Ipv4 { a: 9, b: 9, c: 9, d: 9 })
    );
}

#[test]
fn additional_address_wins_over_delegation() {
    let p = packet(
        Vec::new(),
        vec![record(2, encode_dns_name(&b"ns1.example.com".to_vec()))],
        vec![record(1, vec![5, 6, 7, 8])],
    );
    assert_eq!(
        decide_next(&p).unwrap(),
        Decision::NextServer(Ipv4 { a: 5, b: 6, c: 7, d: 8 })
    );
}

#[test]
fn delegation_followed_when_nothing_else_offered() {
    let p = packet(
        Vec::new(),
        vec![record(2, encode_dns_name(&b"ns1.example.com".to_vec()))],
        Vec::new(),
    );
    assert_eq!(
        decide_next(&p).unwrap(),
        Decision::ResolveNs(b"ns1.example.com".to_vec())
    );
}

#[test]
fn empty_response_is_no_progress() {
    let p = packet(Vec::new(), Vec::new(), Vec::new());
    assert!(matches!(decide_next(&p), Err(DnsError::NoIpFound)));
}

#[test]
fn first_matching_record_is_taken() {
    // A non-A record ahead of the A record is skipped; the first A record
    // wins even when another follows.
    let p = packet(
        vec![
            record(5, vec![0]),
            record(1, vec![1, 1, 1, 1]),
            record(1, vec![2, 2, 2, 2]),
        ],
        Vec::new(),
        Vec::new(),
    );
    assert_eq!(
        decide_next(&p).unwrap(),
        Decision::Answer(Ipv4 { a: 1, b: 1, c: 1, d: 1 })
    );
}

#[test]
fn record_parse_truncated_payload() {
    // The record declares four payload bytes but supplies two.
    let bytes = b"\x03www\x07example\x03com\x00\x00\x01\x00\x01\x00\x00\x00\x3c\x00\x04\x01\x02"
        .to_vec();
    assert!(matches!(
        DNSRecord::parse(&bytes, 0),
        Err(DnsError::Truncated)
    ));
}

#[test]
fn packet_counts_respected() {
    // Zero counts, no body: an empty packet parses.
    let bytes = b"\x00\x2a\x00\x00\x00\x00\x00\x00\x00\x00\x00\x00".to_vec();
    let p = DNSPacket::parse(&bytes).unwrap();
    assert_eq!(p.header.id, 0x2a);
    assert_eq!(p.questions.len(), 0);
    assert_eq!(p.answers.len(), 0);
    // A declared question that is missing fails the whole packet.
    let bytes = b"\x00\x2a\x00\x00\x00\x01\x00\x00\x00\x00\x00\x00".to_vec();
    assert!(matches!(DNSPacket::parse(&bytes), Err(DnsError::Truncated)));
}

use mdns_repeater::parser::error::ParserError;
use mdns_repeater::parser::header::Header;
use mdns_repeater::parser::message::DnsMessage;
use mdns_repeater::parser::qname::Qname;
use mdns_repeater::parser::question::Question;
use mdns_repeater::parser::rdata::RData;
use mdns_repeater::parser::resource_record::Type;

fn name_bytes(name: &str) -> Vec<u8> {
    let mut out = Vec::new();
    for label in name.split('.') {
        out.push(label.len() as u8);
        out.extend_from_slice(label.as_bytes());
    }
    out.push(0);
    out
}

/// A query for "printer.local", type PTR, class IN.
fn query_packet() -> Vec<u8> {
    let mut p = vec![0x12, 0x34, 0x01, 0x00, 0x00, 0x01, 0x00, 0x00, 0x00, 0x00, 0x00, 0x00];
    p.extend_from_slice(&name_bytes("printer.local"));
    p.extend_from_slice(&[0x00, 0x0c, 0x00, 0x01]);
    p
}

/// A response: the question above plus one A answer whose name is a
/// pointer to the question name, with the cache-flush bit set.
fn response_packet() -> Vec<u8> {
    let mut p = vec![0x12, 0x34, 0x84, 0x00, 0x00, 0x01, 0x00, 0x01, 0x00, 0x00, 0x00, 0x00];
    p.extend_from_slice(&name_bytes("printer.local"));
    p.extend_from_slice(&[0x00, 0x0c, 0x00, 0x01]);
    p.extend_from_slice(&[0xc0, 0x0c]);
    p.extend_from_slice(&[0x00, 0x01, 0x80, 0x01, 0x00, 0x00, 0x00, 0x78, 0x00, 0x04]);
    p.extend_from_slice(&[1, 2, 3, 4]);
    p
}

/// An answer packet with an arbitrary record type and rdata.
fn answer_packet(rtype: u16, rdata: &[u8]) -> Vec<u8> {
    let mut p = vec![0x00, 0x01, 0x84, 0x00, 0x00, 0x00, 0x00, 0x01, 0x00, 0x00, 0x00, 0x00];
    p.extend_from_slice(&name_bytes("svc.local"));
    p.extend_from_slice(&rtype.to_be_bytes());
    p.extend_from_slice(&[0x00, 0x01, 0x00, 0x00, 0x00, 0x3c]);
    p.extend_from_slice(&(rdata.len() as u16).to_be_bytes());
    p.extend_from_slice(rdata);
    p
}

#[test]
fn header_fields_decode() {
    let p = query_packet();
    let h = Header::parse(&p).unwrap();
    assert_eq!(h.id, 0x1234);
    assert_eq!(h.fields, 0x0100);
    assert_eq!(h.qd_count, 1);
    assert_eq!(h.an_count, 0);
    assert_eq!(h.ns_count, 0);
    assert_eq!(h.ar_count, 0);
    assert!(!h.qr());
    assert!(h.rd());
    assert_eq!(Header::size(), 12);
}

#[test]
fn header_accessor_bits() {
    let h = Header { fields: 0x8583, ..Default::default() };
    assert!(h.qr());
    assert_eq!(h.opcode(), 0);
    assert!(h.aa());
    assert!(!h.tc());
    assert!(h.rd());
    assert!(h.ra());
    assert_eq!(h.z(), 0);
    assert_eq!(h.rcode(), 3);
}

#[test]
fn header_short_input_fails() {
    assert!(matches!(Header::parse(&[0u8; 11]), Err(ParserError::HeaderError(_))));
}

#[test]
fn qname_plain_roundtrip() {
    let bytes = name_bytes("example.local");
    let (name, used) = Qname::read(&bytes, &bytes).unwrap();
    assert_eq!(name, "example.local");
    assert_eq!(used, bytes.len());
}

#[test]
fn qname_root_is_empty() {
    let bytes = [0u8];
    let (name, used) = Qname::read(&bytes, &bytes).unwrap();
    assert_eq!(name, "");
    assert_eq!(used, 1);
}

#[test]
fn qname_compression() {
    let original = name_bytes("example.local");
    let data = [3, b'w', b'w', b'w', 0xc0, 0x00];
    let (name, used) = Qname::read(&data, &original).unwrap();
    assert_eq!(name, "www.example.local");
    assert_eq!(used, 6);
}

#[test]
fn qname_pointer_chain() {
    // "local" occupies offsets 0..=6; "foo" + pointer to 0 sits at offset 7.
    let mut original = name_bytes("local");
    original.extend_from_slice(&[3, b'f', b'o', b'o', 0xc0, 0x00]);
    let data = [0xc0, 0x07];
    let (name, used) = Qname::read(&data, &original).unwrap();
    assert_eq!(name, "foo.local");
    assert_eq!(used, 2);
}

#[test]
fn qname_longest_label_roundtrip() {
    let label = "x".repeat(63);
    let mut data = vec![63u8];
    data.extend_from_slice(label.as_bytes());
    data.push(0);
    let (name, used) = Qname::read(&data, &data).unwrap();
    assert_eq!(name, label);
    assert_eq!(used, 65);
}

#[test]
fn qname_pointer_out_of_bounds() {
    let original = [0u8; 4];
    let data = [0xc0, 0x20];
    assert!(matches!(Qname::read(&data, &original), Err(ParserError::UnexpectedEOP)));
}

#[test]
fn qname_pointer_cycle_rejected() {
    let data = [0xc0, 0x00];
    assert!(matches!(Qname::read(&data, &data), Err(ParserError::UnexpectedEOP)));
}

#[test]
fn qname_truncated() {
    let data = [3, b'a', b'b'];
    assert!(matches!(Qname::read(&data, &data), Err(ParserError::UnexpectedEOP)));
}

#[test]
fn qname_multibyte_utf8_label() {
    // One label whose bytes are the two-byte UTF-8 encoding of one
    // character: the decoded text has three characters, not four bytes.
    let data = [3, b'c', 0xc3, 0xa9, 2, b'f', b'r', 0];
    let (name, used) = Qname::read(&data, &data).unwrap();
    assert_eq!(name, "c\u{e9}.fr");
    assert_eq!(name.chars().count(), 5);
    assert_eq!(used, 8);
}

#[test]
fn qname_invalid_utf8() {
    let data = [2, 0xff, 0xfe, 0];
    assert!(matches!(Qname::read(&data, &data), Err(ParserError::LabelIsNotUTF8)));
}

#[test]
fn question_unicast_bit_masked() {
    let mut data = name_bytes("foo");
    data.extend_from_slice(&[0x00, 0x0c, 0x80, 0x01]);
    let (q, used) = Question::parse(&data, &data).unwrap();
    assert_eq!(q.qname, "foo");
    assert_eq!(q.qtype, 12);
    assert!(q.unicast_preferred);
    assert_eq!(q.qclass, 1);
    assert_eq!(used, data.len());
}

#[test]
fn parse_query_message() {
    let p = query_packet();
    let m = DnsMessage::parse(&p).unwrap();
    assert_eq!(m.header.qd_count, 1);
    assert_eq!(m.questions.len(), 1);
    assert_eq!(m.questions[0].qname, "printer.local");
    assert_eq!(m.questions[0].qtype, 12);
    assert_eq!(m.questions[0].qclass, 1);
    assert!(!m.questions[0].unicast_preferred);
    assert!(m.answers.is_empty());
}

#[test]
fn parse_response_message() {
    let p = response_packet();
    let m = DnsMessage::parse(&p).unwrap();
    assert_eq!(m.answers.len(), 1);
    let a = &m.answers[0];
    assert_eq!(a.name, "printer.local");
    assert_eq!(a.rtype, Type::A);
    assert!(a.cache_flush);
    assert_eq!(a.class, 1);
    assert_eq!(a.ttl, 120);
    assert_eq!(a.rdlength, 4);
    match &a.rdata {
        RData::A(rec) => assert_eq!(rec.address, [1, 2, 3, 4]),
        other => panic!("expected an A record, got {:?}", other),
    }
}

#[test]
fn unknown_rtype_tolerated() {
    let p = answer_packet(200, &[0xde, 0xad]);
    let m = DnsMessage::parse(&p).unwrap();
    assert_eq!(m.answers.len(), 1);
    assert_eq!(m.answers[0].rtype, Type::Unknown(200));
    match &m.answers[0].rdata {
        RData::Unknown(t, bytes) => {
            assert_eq!(*t, Type::Unknown(200));
            assert_eq!(bytes, &vec![0xde, 0xad]);
        },
        other => panic!("expected an opaque record, got {:?}", other),
    }
}

#[test]
fn nsec_keeps_raw_bytes() {
    let p = answer_packet(47, &[0x00, 0x06, 0x40]);
    let m = DnsMessage::parse(&p).unwrap();
    match &m.answers[0].rdata {
        RData::Unknown(t, bytes) => {
            assert_eq!(*t, Type::Nsec);
            assert_eq!(bytes, &vec![0x00, 0x06, 0x40]);
        },
        other => panic!("expected an opaque record, got {:?}", other),
    }
}

#[test]
fn type_parse_registry() {
    assert_eq!(Type::parse(1), Ok(Type::A));
    assert_eq!(Type::parse(5), Ok(Type::Cname));
    assert_eq!(Type::parse(12), Ok(Type::Ptr));
    assert_eq!(Type::parse(16), Ok(Type::Txt));
    assert_eq!(Type::parse(28), Ok(Type::Aaaa));
    assert_eq!(Type::parse(33), Ok(Type::Srv));
    assert_eq!(Type::parse(41), Ok(Type::Opt));
    assert_eq!(Type::parse(47), Ok(Type::Nsec));
    assert_eq!(Type::parse(65), Ok(Type::Https));
    assert_eq!(Type::parse(999), Err(ParserError::UnknownRType(999)));
}

#[test]
fn truncation_never_panics_and_always_fails() {
    let p = response_packet();
    for i in 0..p.len() {
        let r = DnsMessage::parse(&p[..i]);
        if i < 12 {
            assert!(matches!(r, Err(ParserError::HeaderError(_))), "prefix {}", i);
        } else {
            assert!(matches!(r, Err(ParserError::UnexpectedEOP)), "prefix {}", i);
        }
    }
}

#[test]
fn parse_is_idempotent() {
    let p = response_packet();
    let m1 = DnsMessage::parse(&p).unwrap();
    let m2 = DnsMessage::parse(&p).unwrap();
    assert_eq!(m1, m2);
    let q = query_packet();
    assert_eq!(DnsMessage::parse(&q).unwrap(), DnsMessage::parse(&q).unwrap());
}

#[test]
fn srv_record_parses() {
    let mut rdata = vec![0x00, 0x0a, 0x00, 0x05, 0x1f, 0x90];
    rdata.extend_from_slice(&name_bytes("host.local"));
    let p = answer_packet(33, &rdata);
    let m = DnsMessage::parse(&p).unwrap();
    assert!(matches!(m.answers[0].rdata, RData::Srv(_)));
}

#[test]
fn srv_record_short_fails() {
    let p = answer_packet(33, &[0x00, 0x0a, 0x00]);
    assert!(matches!(DnsMessage::parse(&p), Err(ParserError::UnexpectedEOP)));
}

#[test]
fn https_record_parses() {
    let mut rdata = vec![0x00, 0x01];
    rdata.extend_from_slice(&name_bytes("svc.local"));
    rdata.extend_from_slice(&[0x00, 0x01, 0x00, 0x02, 0xab, 0xcd]);
    let p = answer_packet(65, &rdata);
    let m = DnsMessage::parse(&p).unwrap();
    match &m.answers[0].rdata {
        RData::Https(rec) => {
            assert_eq!(rec.svc_priority, 1);
            assert_eq!(rec.target_name, "svc.local");
            assert_eq!(rec.svc_params.len(), 1);
        },
        other => panic!("expected an HTTPS record, got {:?}", other),
    }
}

#[test]
fn https_partial_parameter_fails() {
    let mut rdata = vec![0x00, 0x01];
    rdata.extend_from_slice(&name_bytes("svc.local"));
    rdata.extend_from_slice(&[0x00, 0x01, 0x00, 0x05, 0xab]);
    let p = answer_packet(65, &rdata);
    assert!(matches!(DnsMessage::parse(&p), Err(ParserError::UnexpectedEOP)));
}

#[test]
fn other_rdata_variants_parse() {
    let m = DnsMessage::parse(&answer_packet(16, b"hello")).unwrap();
    assert!(matches!(m.answers[0].rdata, RData::Txt(_)));

    let m = DnsMessage::parse(&answer_packet(28, &[0u8; 16])).unwrap();
    match &m.answers[0].rdata {
        RData::Aaaa(rec) => assert_eq!(rec.address, [0u8; 16]),
        other => panic!("expected an AAAA record, got {:?}", other),
    }

    let m = DnsMessage::parse(&answer_packet(12, &name_bytes("x.local"))).unwrap();
    assert!(matches!(m.answers[0].rdata, RData::Ptr(_)));

    let m = DnsMessage::parse(&answer_packet(5, &name_bytes("y.local"))).unwrap();
    assert!(matches!(m.answers[0].rdata, RData::Cname(_)));
}

#[test]
fn a_record_short_rdata_fails() {
    let p = answer_packet(1, &[1, 2]);
    assert!(matches!(DnsMessage::parse(&p), Err(ParserError::UnexpectedEOP)));
}

use lanpeer::dns::{DnsName, DnsPacket, DnsQuestion, DnsRecord};
use lanpeer::errors::ParseError;

fn name(s: &str) -> DnsName {
    DnsName::new(s).unwrap()
}

fn sample() -> DnsPacket {
    DnsPacket {
        id: 0xBEEF,
        flags: 0x8400,
        questions: vec![DnsQuestion { qname: name("_svc._tcp.local"), qtype: 12, qclass: 1 }],
        answers: vec![
            DnsRecord::PTR { name: name("_svc._tcp.local"), ttl: 120, ptr_name: name("Box._svc._tcp.local") },
            DnsRecord::SRV {
                name: name("Box._svc._tcp.local"),
                ttl: 120,
                priority: 1,
                weight: 2,
                port: 8080,
                target: name("Box.local"),
            },
        ],
        authorities: vec![],
        additionals: vec![DnsRecord::A { name: name("Box.local"), ttl: 4500, ip: [10, 1, 2, 3] }],
    }
}

fn same(a: &DnsPacket, b: &DnsPacket) -> bool {
    format!("{:?}", a) == format!("{:?}", b)
}

#[test]
fn round_trip_of_supported_records() {
    let p = sample();
    let bytes = p.serialize();
    let q = DnsPacket::parse(&bytes).unwrap();
    assert!(same(&p, &q));
}

#[test]
fn round_trip_of_unicode_labels() {
    let p = DnsPacket {
        id: 7,
        flags: 0,
        questions: vec![DnsQuestion { qname: name("café.münchen.local"), qtype: 12, qclass: 1 }],
        answers: vec![],
        authorities: vec![],
        additionals: vec![],
    };
    let q = DnsPacket::parse(&p.serialize()).unwrap();
    assert!(same(&p, &q));
    assert_eq!(q.questions[0].qname.to_string(), "café.münchen.local");
}

#[test]
fn header_and_question_bytes() {
    let p = DnsPacket {
        id: 0x1234,
        flags: 0x8400,
        questions: vec![DnsQuestion { qname: name("a.b"), qtype: 12, qclass: 1 }],
        answers: vec![],
        authorities: vec![],
        additionals: vec![],
    };
    assert_eq!(
        p.serialize(),
        vec![0x12, 0x34, 0x84, 0x00, 0, 1, 0, 0, 0, 0, 0, 0, 1, b'a', 1, b'b', 0, 0, 12, 0, 1]
    );
}

#[test]
fn a_record_bytes() {
    let p = DnsPacket {
        id: 0,
        flags: 0,
        questions: vec![],
        answers: vec![DnsRecord::A { name: name("h"), ttl: 0x01020304, ip: [9, 8, 7, 6] }],
        authorities: vec![],
        additionals: vec![],
    };
    let b = p.serialize();
    assert_eq!(&b[12..], &[1, b'h', 0, 0, 1, 0, 1, 1, 2, 3, 4, 0, 4, 9, 8, 7, 6]);
}

#[test]
fn compression_pointer_is_followed() {
    let mut b = vec![0, 1, 0x84, 0, 0, 0, 0, 2, 0, 0, 0, 0];
    // answer 1: "x.local" A record
    b.extend_from_slice(&[1, b'x', 5, b'l', b'o', b'c', b'a', b'l', 0, 0, 1, 0, 1, 0, 0, 0, 60, 0, 4, 1, 2, 3, 4]);
    // answer 2: "y" + pointer to "local" at offset 14
    b.extend_from_slice(&[1, b'y', 0xC0, 14, 0, 1, 0, 1, 0, 0, 0, 60, 0, 4, 5, 6, 7, 8]);
    let p = DnsPacket::parse(&b).unwrap();
    assert_eq!(p.answers.len(), 2);
    match &p.answers[1] {
        DnsRecord::A { name, ip, .. } => {
            assert_eq!(name.to_string(), "y.local");
            assert_eq!(*ip, [5, 6, 7, 8]);
        }
        other => panic!("unexpected {:?}", other),
    }
}

#[test]
fn forward_pointer_is_refused() {
    let b = vec![0, 0, 0, 0, 0, 1, 0, 0, 0, 0, 0, 0, 0xC0, 12, 0, 12, 0, 1];
    assert!(matches!(DnsPacket::parse(&b), Err(ParseError::BadPointer)));
}

#[test]
fn truncated_and_malformed_input() {
    assert!(matches!(DnsPacket::parse(&[0, 1, 2]), Err(ParseError::Truncated)));
    let bytes = sample().serialize();
    assert!(DnsPacket::parse(&bytes[..bytes.len() - 1]).is_err());
    let bad_label = vec![0, 0, 0, 0, 0, 1, 0, 0, 0, 0, 0, 0, 0x50, b'a', 0, 0, 12, 0, 1];
    assert!(matches!(DnsPacket::parse(&bad_label), Err(ParseError::BadLabel)));
    let bad_utf8 = vec![0, 0, 0, 0, 0, 1, 0, 0, 0, 0, 0, 0, 1, 0xFF, 0, 0, 12, 0, 1];
    assert!(matches!(DnsPacket::parse(&bad_utf8), Err(ParseError::BadUtf8)));
    let bad_a = vec![0, 0, 0, 0, 0, 0, 0, 1, 0, 0, 0, 0, 0, 0, 1, 0, 1, 0, 0, 0, 1, 0, 3, 1, 2, 3];
    assert!(matches!(DnsPacket::parse(&bad_a), Err(ParseError::BadRdata)));
}

#[test]
fn unknown_record_types_are_skipped() {
    let mut b = vec![0, 0, 0x84, 0, 0, 0, 0, 2, 0, 0, 0, 0];
    b.extend_from_slice(&[0, 0, 16, 0, 1, 0, 0, 0, 1, 0, 3, 2, b'h', b'i']);
    b.extend_from_slice(&[0, 0, 1, 0, 1, 0, 0, 0, 1, 0, 4, 1, 1, 1, 1]);
    let p = DnsPacket::parse(&b).unwrap();
    assert_eq!(p.answers.len(), 1);
    assert!(p.is_response());
}

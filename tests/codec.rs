use pingoc::dns::buffer::{PacketBuffer, PacketBufferError};
use pingoc::dns::header::{DnsHeader, DnsResponseCode};
use pingoc::dns::packet::{DnsPacket, IpAddress};
use pingoc::dns::query::{DnsQueryClass, DnsQueryType};
use pingoc::dns::question::DnsQuestion;
use pingoc::dns::record::DnsRecord;

fn buffer_with(bytes: &[(usize, u8)]) -> PacketBuffer {
    let mut b = PacketBuffer::new();
    for (i, v) in bytes {
        b.buffer[*i] = *v;
    }
    b
}

fn put_labels(b: &mut PacketBuffer, at: usize, labels: &[&str]) -> usize {
    let mut p = at;
    for l in labels {
        b.buffer[p] = l.len() as u8;
        p += 1;
        for c in l.bytes() {
            b.buffer[p] = c;
            p += 1;
        }
    }
    b.buffer[p] = 0;
    p + 1
}

#[test]
fn new_buffer_is_zeroed() {
    let b = PacketBuffer::new();
    assert_eq!(b.pos, 0);
    assert!(b.buffer.iter().all(|x| *x == 0));
    assert_eq!(b.buffer.len(), 512);
}

#[test]
fn seek_inside_and_outside() {
    let mut b = PacketBuffer::new();
    assert!(b.seek(511).is_ok());
    assert_eq!(b.pos, 511);
    assert_eq!(b.seek(512), Err(PacketBufferError::PositionOutOfBounds(512)));
    assert_eq!(b.pos, 511);
}

#[test]
fn get_and_get_bytes() {
    let b = buffer_with(&[(3, 7), (4, 8)]);
    assert_eq!(b.get(3), Ok(7));
    assert_eq!(b.get(512), Err(PacketBufferError::EndOfBuffer));
    assert_eq!(b.get_bytes(3, 2).unwrap(), &[7, 8]);
    assert_eq!(b.get_bytes(510, 3), Err(PacketBufferError::EndOfBuffer));
    assert_eq!(b.get_bytes(510, 2).unwrap().len(), 2);
}

#[test]
fn integers_are_big_endian() {
    let mut b = PacketBuffer::new();
    b.write_u16(0x1234).unwrap();
    b.write_u32(0xDEADBEEF).unwrap();
    b.write_u64(0x0102030405060708).unwrap();
    b.write_u128(0x00112233445566778899AABBCCDDEEFF).unwrap();
    assert_eq!(b.pos, 30);
    assert_eq!(&b.buffer[0..6], &[0x12, 0x34, 0xDE, 0xAD, 0xBE, 0xEF]);
    assert_eq!(&b.buffer[6..14], &[1, 2, 3, 4, 5, 6, 7, 8]);
    assert_eq!(b.buffer[14], 0x00);
    assert_eq!(b.buffer[29], 0xFF);
    b.seek(0).unwrap();
    assert_eq!(b.read_u16(), Ok(0x1234));
    assert_eq!(b.read_u32(), Ok(0xDEADBEEF));
    assert_eq!(b.read_u64(), Ok(0x0102030405060708));
    assert_eq!(b.read_u128(), Ok(0x00112233445566778899AABBCCDDEEFF));
    assert_eq!(b.pos, 30);
}

#[test]
fn reads_past_the_end_fail_and_keep_the_cursor() {
    let mut b = PacketBuffer::new();
    b.seek(511).unwrap();
    assert_eq!(b.read_u16(), Err(PacketBufferError::EndOfBuffer));
    assert_eq!(b.pos, 511);
    assert_eq!(b.read(), Ok(0));
    assert_eq!(b.read(), Err(PacketBufferError::EndOfBuffer));
    assert_eq!(b.pos, 512);
}

#[test]
fn writes_past_the_end_fail_and_leave_the_buffer() {
    let mut b = PacketBuffer::new();
    b.seek(510).unwrap();
    assert_eq!(b.write_u32(0xFFFF_FFFF), Err(PacketBufferError::EndOfBuffer));
    assert_eq!(b.pos, 510);
    assert_eq!(b.buffer[510], 0);
    assert!(b.write_u16(0xABCD).is_ok());
    assert_eq!(b.write(1), Err(PacketBufferError::EndOfBuffer));
}

#[test]
fn read_and_write_bytes() {
    let mut b = PacketBuffer::new();
    b.write_bytes(&[9, 8, 7]).unwrap();
    assert_eq!(b.pos, 3);
    b.seek(0).unwrap();
    assert_eq!(b.read_bytes(3), Ok(vec![9, 8, 7]));
    assert_eq!(b.read_bytes(510), Err(PacketBufferError::EndOfBuffer));
    assert_eq!(b.pos, 3);
    let big = vec![1u8; 600];
    assert_eq!(b.write_bytes(&big), Err(PacketBufferError::EndOfBuffer));
}

#[test]
fn write_name_exact_bytes() {
    let mut b = PacketBuffer::new();
    b.write_query_name("www.example.com").unwrap();
    let expected: Vec<u8> = vec![
        3, b'w', b'w', b'w', 7, b'e', b'x', b'a', b'm', b'p', b'l', b'e', 3, b'c', b'o', b'm', 0,
    ];
    assert_eq!(b.pos, expected.len());
    assert_eq!(&b.buffer[..expected.len()], expected.as_slice());
    b.seek(0).unwrap();
    assert_eq!(b.read_query_name(), Ok("www.example.com".to_string()));
    assert_eq!(b.pos, expected.len());
}

#[test]
fn label_bound_rejects_64_bytes_and_keeps_cursor() {
    let mut b = PacketBuffer::new();
    b.seek(5).unwrap();
    let long = "a".repeat(64);
    let name = format!("www.{}.com", long);
    assert_eq!(b.write_query_name(&name), Err(PacketBufferError::InvalidLabelLength));
    assert_eq!(b.pos, 5);
    assert!(b.buffer.iter().all(|x| *x == 0));
    let ok = format!("www.{}.com", "a".repeat(63));
    assert!(b.write_query_name(&ok).is_ok());
    assert_eq!(b.pos, 5 + ok.len() + 2);
}

#[test]
fn name_too_long_for_the_buffer() {
    let mut b = PacketBuffer::new();
    b.seek(500).unwrap();
    assert_eq!(b.write_query_name("abcdef.ghijkl"), Err(PacketBufferError::EndOfBuffer));
    assert_eq!(b.pos, 500);
}

#[test]
fn compression_pointer_decodes_like_the_target() {
    let mut b = PacketBuffer::new();
    let end = put_labels(&mut b, 12, &["mail", "example", "org"]);
    b.buffer[40] = 0xC0;
    b.buffer[41] = 0x0C;
    b.seek(12).unwrap();
    let direct = b.read_query_name().unwrap();
    assert_eq!(b.pos, end);
    b.seek(40).unwrap();
    let via_pointer = b.read_query_name().unwrap();
    assert_eq!(direct, via_pointer);
    assert_eq!(via_pointer, "mail.example.org");
    assert_eq!(b.pos, 42);
}

#[test]
fn labels_then_pointer() {
    let mut b = PacketBuffer::new();
    put_labels(&mut b, 12, &["example", "org"]);
    b.buffer[60] = 3;
    b.buffer[61] = b'w';
    b.buffer[62] = b'w';
    b.buffer[63] = b'w';
    b.buffer[64] = 0xC0;
    b.buffer[65] = 12;
    b.seek(60).unwrap();
    assert_eq!(b.read_query_name(), Ok("www.example.org".to_string()));
    assert_eq!(b.pos, 66);
}

fn pointer_chain(jumps: usize) -> PacketBuffer {
    let mut b = PacketBuffer::new();
    put_labels(&mut b, 12, &["end"]);
    // pointer k sits at 100 + 2k and points to the next one; the last points at 12
    for k in 0..jumps {
        let at = 100 + 2 * k;
        let target = if k + 1 == jumps { 12 } else { 100 + 2 * (k + 1) };
        b.buffer[at] = 0xC0 | ((target >> 8) as u8);
        b.buffer[at + 1] = (target & 0xFF) as u8;
    }
    b.seek(100).unwrap();
    b
}

#[test]
fn jump_bound_five_succeed() {
    let mut b = pointer_chain(5);
    assert_eq!(b.read_query_name(), Ok("end".to_string()));
    assert_eq!(b.pos, 102);
}

#[test]
fn jump_bound_six_fail() {
    let mut b = pointer_chain(6);
    assert_eq!(b.read_query_name(), Err(PacketBufferError::JumpLimitExceeded));
    assert_eq!(b.pos, 100);
}

#[test]
fn pointer_cycle_fails() {
    let mut b = buffer_with(&[(20, 0xC0), (21, 20)]);
    b.seek(20).unwrap();
    assert_eq!(b.read_query_name(), Err(PacketBufferError::JumpLimitExceeded));
}

#[test]
fn invalid_utf8_label_fails() {
    let mut b = buffer_with(&[(0, 2), (1, 0xC3), (2, 0x28), (3, 0)]);
    assert_eq!(b.read_query_name(), Err(PacketBufferError::Utf8ConversionError));
    assert_eq!(b.pos, 0);
}

#[test]
fn non_ascii_label_decodes() {
    let mut b = PacketBuffer::new();
    b.write_query_name("caf\u{e9}.fr").unwrap();
    assert_eq!(&b.buffer[..4], &[5, b'c', b'a', b'f']);
    b.seek(0).unwrap();
    assert_eq!(b.read_query_name(), Ok("caf\u{e9}.fr".to_string()));
}

#[test]
fn name_running_off_the_end() {
    let mut b = buffer_with(&[(510, 5)]);
    b.seek(510).unwrap();
    assert_eq!(b.read_query_name(), Err(PacketBufferError::EndOfBuffer));
}

#[test]
fn first_pointer_at_the_very_end() {
    let mut b = buffer_with(&[(0, 1), (1, b'z'), (510, 0xC0)]);
    b.seek(510).unwrap();
    assert_eq!(b.read_query_name(), Ok("z".to_string()));
    assert_eq!(b.pos, 512);
}

#[test]
fn pointer_cut_off_by_the_end() {
    let mut b = buffer_with(&[(511, 0xC0)]);
    b.seek(511).unwrap();
    assert_eq!(b.read_query_name(), Err(PacketBufferError::EndOfBuffer));
    assert_eq!(b.pos, 511);
}

#[test]
fn response_codes() {
    assert_eq!(DnsResponseCode::from_u8(0), DnsResponseCode::NoError);
    assert_eq!(DnsResponseCode::from_u8(3), DnsResponseCode::NxDomain);
    assert_eq!(DnsResponseCode::from_u8(5), DnsResponseCode::Refused);
    assert_eq!(DnsResponseCode::from_u8(9), DnsResponseCode::Unrecognized(9));
    assert_eq!(DnsResponseCode::Unrecognized(9).to_u8(), 9);
    assert_eq!(DnsResponseCode::ServFail.to_u8(), 2);
}

#[test]
fn flag_round_trip_for_every_word() {
    for w in 0..=u16::MAX {
        let mut h = DnsHeader::new();
        h.set_flags(w);
        assert_eq!(h.get_flags(), w);
    }
}

#[test]
fn flags_unpack_to_fields() {
    let mut h = DnsHeader::new();
    h.set_flags(0b1_0010_1_0_1_1_010_0011);
    assert!(h.query_response);
    assert_eq!(h.opcode, 2);
    assert!(h.authoritative_answer);
    assert!(!h.truncated_message);
    assert!(h.recursion_desired);
    assert!(h.recursion_available);
    assert_eq!(h.reserved, 2);
    assert_eq!(h.response_code, DnsResponseCode::NxDomain);
}

#[test]
fn header_wire_bytes() {
    let mut h = DnsHeader::new();
    h.id = 0xBEEF;
    h.recursion_desired = true;
    h.response_code = DnsResponseCode::Refused;
    h.question_count = 1;
    h.answer_count = 2;
    h.authority_count = 3;
    h.additional_count = 4;
    let mut b = PacketBuffer::new();
    h.write(&mut b).unwrap();
    assert_eq!(&b.buffer[..12], &[0xBE, 0xEF, 0x01, 0x05, 0, 1, 0, 2, 0, 3, 0, 4]);
    b.seek(0).unwrap();
    assert_eq!(DnsHeader::read(&mut b), Ok(h));
    let mut full = PacketBuffer::new();
    full.seek(505).unwrap();
    assert_eq!(h.write(&mut full), Err(PacketBufferError::EndOfBuffer));
    assert_eq!(DnsHeader::read(&mut full), Err(PacketBufferError::EndOfBuffer));
}

#[test]
fn query_type_codes() {
    let known = [
        (1, DnsQueryType::A),
        (2, DnsQueryType::NS),
        (5, DnsQueryType::CNAME),
        (6, DnsQueryType::SOA),
        (12, DnsQueryType::PTR),
        (15, DnsQueryType::MX),
        (16, DnsQueryType::TXT),
        (28, DnsQueryType::AAAA),
        (33, DnsQueryType::SRV),
    ];
    for (code, t) in known {
        assert_eq!(DnsQueryType::from_u16(code), t);
        assert_eq!(t.to_u16(), code);
    }
    assert_eq!(DnsQueryType::from_u16(99), DnsQueryType::UNKNOWN(99));
    assert_eq!(DnsQueryType::UNKNOWN(99).to_u16(), 99);
}

#[test]
fn query_class_codes() {
    assert_eq!(DnsQueryClass::from_u16(1), DnsQueryClass::IN);
    assert_eq!(DnsQueryClass::from_u16(3), DnsQueryClass::CH);
    assert_eq!(DnsQueryClass::from_u16(4), DnsQueryClass::HS);
    assert_eq!(DnsQueryClass::from_u16(254), DnsQueryClass::NONE);
    assert_eq!(DnsQueryClass::from_u16(255), DnsQueryClass::ANY);
    assert_eq!(DnsQueryClass::from_u16(0), DnsQueryClass::RESERVED);
    assert_eq!(DnsQueryClass::from_u16(0xFF00), DnsQueryClass::ReservedPrivate);
    assert_eq!(DnsQueryClass::from_u16(0xFFFF), DnsQueryClass::ReservedPrivate);
    assert_eq!(DnsQueryClass::from_u16(77), DnsQueryClass::UNASSIGNED);
    assert_eq!(DnsQueryClass::UNASSIGNED.to_u16(), 2);
    assert_eq!(DnsQueryClass::ReservedPrivate.to_u16(), 0xFF00);
}

#[test]
fn question_round_trip_and_bytes() {
    let q = DnsQuestion::new("example.com".to_string(), DnsQueryType::MX);
    assert_eq!(q.query_class, DnsQueryClass::IN);
    let mut b = PacketBuffer::new();
    q.write(&mut b).unwrap();
    assert_eq!(b.pos, 13 + 4);
    assert_eq!(&b.buffer[13..17], &[0, 15, 0, 1]);
    b.seek(0).unwrap();
    assert_eq!(DnsQuestion::read(&mut b), Ok(q));
}

fn every_kind() -> Vec<DnsRecord> {
    vec![
        DnsRecord::A { domain: "a.example".into(), addr: 0xC000_0201, ttl: 60 },
        DnsRecord::NS { domain: "example".into(), host: "ns1.example".into(), ttl: 61 },
        DnsRecord::CNAME { domain: "www.example".into(), host: "a.example".into(), ttl: 62 },
        DnsRecord::SOA {
            domain: "example".into(),
            primary_ns: "ns1.example".into(),
            mailbox: "hostmaster.example".into(),
            serial: 2024010101,
            refresh: 7200,
            retry: 3600,
            expire: 1209600,
            minimum_ttl: 300,
            ttl: 63,
        },
        DnsRecord::PTR { domain: "1.2.0.192.in-addr.arpa".into(), host: "a.example".into(), ttl: 64 },
        DnsRecord::MX { domain: "example".into(), priority: 10, host: "mail.example".into(), ttl: 65 },
        DnsRecord::TXT { domain: "example".into(), text: "v=spf1 -all".into(), ttl: 66 },
        DnsRecord::AAAA { domain: "a.example".into(), addr: 0x2001_0db8_0000_0000_0000_0000_0000_0001, ttl: 67 },
        DnsRecord::SRV {
            domain: "_sip._tcp.example".into(),
            priority: 1,
            weight: 2,
            port: 5060,
            target: "sip.example".into(),
            ttl: 68,
        },
        DnsRecord::UNKNOWN {
            domain: "example".into(),
            query_type: DnsQueryType::UNKNOWN(99),
            data: vec![1, 2, 3, 4, 5],
            ttl: 69,
        },
    ]
}

#[test]
fn record_round_trip_every_kind() {
    for r in every_kind() {
        let mut b = PacketBuffer::new();
        r.write(&mut b).unwrap();
        let end = b.pos;
        b.seek(0).unwrap();
        let back = DnsRecord::read(&mut b).unwrap();
        assert_eq!(r, back);
        assert_eq!(b.pos, end);
    }
}

#[test]
fn a_record_bytes() {
    let r = DnsRecord::A { domain: "x".into(), addr: 0x7F00_0001, ttl: 300 };
    let mut b = PacketBuffer::new();
    r.write(&mut b).unwrap();
    assert_eq!(&b.buffer[..b.pos], &[1, b'x', 0, 0, 1, 0, 1, 0, 0, 1, 0x2C, 0, 4, 127, 0, 0, 1]);
}

#[test]
fn mx_record_data_length_counts_the_host() {
    let r = DnsRecord::MX { domain: "x".into(), priority: 5, host: "m.x".into(), ttl: 1 };
    let mut b = PacketBuffer::new();
    r.write(&mut b).unwrap();
    // owner 3 bytes, type, class, ttl: 8 bytes; then the data length
    assert_eq!(&b.buffer[11..13], &[0, 2 + 5]);
}

#[test]
fn txt_with_invalid_utf8_is_replaced() {
    let mut b = PacketBuffer::new();
    b.write_query_name("t").unwrap();
    b.write_u16(16).unwrap();
    b.write_u16(1).unwrap();
    b.write_u32(5).unwrap();
    b.write_u16(3).unwrap();
    b.write_bytes(&[b'o', 0xFF, b'k']).unwrap();
    b.seek(0).unwrap();
    match DnsRecord::read(&mut b).unwrap() {
        DnsRecord::TXT { text, ttl, .. } => {
            assert_eq!(text, "o\u{FFFD}k");
            assert_eq!(ttl, 5);
        }
        other => panic!("unexpected {:?}", other),
    }
}

#[test]
fn record_with_long_label_is_rejected() {
    let r = DnsRecord::NS { domain: "x".into(), host: "b".repeat(64), ttl: 1 };
    let mut b = PacketBuffer::new();
    assert_eq!(r.write(&mut b), Err(PacketBufferError::InvalidLabelLength));
    assert_eq!(b.pos, 0);
}

#[test]
fn truncated_record_fails() {
    let r = DnsRecord::AAAA { domain: "x".into(), addr: 1, ttl: 1 };
    let mut b = PacketBuffer::new();
    r.write(&mut b).unwrap();
    let mut short = PacketBuffer::new();
    short.seek(512 - 20).unwrap();
    short.write_bytes(&b.buffer[..20]).unwrap();
    short.seek(512 - 20).unwrap();
    assert_eq!(DnsRecord::read(&mut short).map(|_| ()), Err(PacketBufferError::EndOfBuffer));
}

#[test]
fn matches_query_type_by_kind() {
    let rs = every_kind();
    assert!(rs[0].matches_query_type(DnsQueryType::A));
    assert!(!rs[0].matches_query_type(DnsQueryType::AAAA));
    assert!(rs[7].matches_query_type(DnsQueryType::AAAA));
    assert!(rs[9].matches_query_type(DnsQueryType::UNKNOWN(99)));
    assert!(!rs[9].matches_query_type(DnsQueryType::UNKNOWN(98)));
}

#[test]
fn message_round_trip() {
    let mut p = DnsPacket::new();
    p.header.id = 77;
    p.header.query_response = true;
    p.header.authoritative_answer = true;
    p.questions.push(DnsQuestion::new("example".into(), DnsQueryType::A));
    let rs = every_kind();
    let mut i = 0;
    for r in rs {
        match i % 3 {
            0 => p.answers.push(r),
            1 => p.authorities.push(r),
            _ => p.additional.push(r),
        }
        i += 1;
    }
    let mut b = PacketBuffer::new();
    p.write(&mut b).unwrap();
    let end = b.pos;
    b.seek(0).unwrap();
    let back = DnsPacket::read(&mut b).unwrap();
    assert_eq!(b.pos, end);
    assert_eq!(back.header.id, 77);
    assert_eq!(back.header.question_count, 1);
    assert_eq!(back.header.answer_count, 4);
    assert_eq!(back.header.authority_count, 3);
    assert_eq!(back.header.additional_count, 3);
    assert_eq!(back.questions, p.questions);
    assert_eq!(back.answers, p.answers);
    assert_eq!(back.authorities, p.authorities);
    assert_eq!(back.additional, p.additional);
}

#[test]
fn message_write_sets_counts() {
    let mut p = DnsPacket::new();
    p.header.question_count = 9;
    p.questions.push(DnsQuestion::new("a".into(), DnsQueryType::A));
    let mut b = PacketBuffer::new();
    p.write(&mut b).unwrap();
    assert_eq!(&b.buffer[4..6], &[0, 1]);
}

#[test]
fn message_too_big_fails() {
    let mut p = DnsPacket::new();
    for _ in 0..40 {
        p.questions.push(DnsQuestion::new("abcdefghij.example".into(), DnsQueryType::A));
    }
    let mut b = PacketBuffer::new();
    assert_eq!(p.write(&mut b), Err(PacketBufferError::EndOfBuffer));
    assert_eq!(b.pos, 0);
}

fn referral() -> DnsPacket {
    let mut p = DnsPacket::new();
    p.authorities.push(DnsRecord::NS { domain: "com".into(), host: "a.gtld.net".into(), ttl: 1 });
    p.authorities.push(DnsRecord::NS { domain: "org".into(), host: "b.org-servers.net".into(), ttl: 1 });
    p.authorities.push(DnsRecord::NS { domain: "com".into(), host: "c.gtld.net".into(), ttl: 1 });
    p.additional.push(DnsRecord::AAAA { domain: "a.gtld.net".into(), addr: 42, ttl: 1 });
    p.additional.push(DnsRecord::A { domain: "c.gtld.net".into(), addr: 0x0A00_0003, ttl: 1 });
    p.additional.push(DnsRecord::A { domain: "a.gtld.net".into(), addr: 0x0A00_0001, ttl: 1 });
    p
}

#[test]
fn nameservers_match_on_label_boundaries() {
    let p = referral();
    let ns = p.get_nameservers("example.com");
    assert_eq!(
        ns,
        vec![
            ("com".to_string(), "a.gtld.net".to_string()),
            ("com".to_string(), "c.gtld.net".to_string())
        ]
    );
    assert!(p.get_nameservers("examplecom").is_empty());
    assert_eq!(p.get_nameservers("com").len(), 2);
    assert_eq!(p.get_nameservers("x.org").len(), 1);
}

#[test]
fn root_zone_holds_every_name() {
    let mut p = DnsPacket::new();
    p.authorities.push(DnsRecord::NS { domain: "".into(), host: "r.root".into(), ttl: 1 });
    assert_eq!(p.get_nameservers("anything.at.all").len(), 1);
}

#[test]
fn resolved_nameserver_prefers_first_server_then_section_order() {
    let p = referral();
    assert_eq!(
        p.get_resolved_nameserver("example.com", DnsQueryType::A),
        Some(IpAddress::V4(0x0A00_0001))
    );
    assert_eq!(
        p.get_resolved_nameserver("example.com", DnsQueryType::AAAA),
        Some(IpAddress::V6(42))
    );
    assert_eq!(p.get_resolved_nameserver("example.com", DnsQueryType::MX), None);
    assert_eq!(p.get_resolved_nameserver("example.net", DnsQueryType::A), None);
}

#[test]
fn unresolved_nameserver_is_first_host() {
    let p = referral();
    assert_eq!(p.get_uresolved_nameserver("example.com"), Some("a.gtld.net".to_string()));
    assert_eq!(p.get_uresolved_nameserver("example.org"), Some("b.org-servers.net".to_string()));
    assert_eq!(p.get_uresolved_nameserver("example.net"), None);
}

#[test]
fn get_record_takes_first_of_kind() {
    let mut p = DnsPacket::new();
    p.answers.push(DnsRecord::CNAME { domain: "w".into(), host: "x".into(), ttl: 1 });
    p.answers.push(DnsRecord::A { domain: "x".into(), addr: 5, ttl: 1 });
    p.answers.push(DnsRecord::A { domain: "x".into(), addr: 6, ttl: 1 });
    assert_eq!(p.get_record(DnsQueryType::A), Some(IpAddress::V4(5)));
    assert_eq!(p.get_record(DnsQueryType::AAAA), None);
    assert_eq!(p.get_record(DnsQueryType::CNAME), None);
}

#[test]
fn record_equality_compares_fields() {
    let a = DnsRecord::MX { domain: "x".into(), priority: 1, host: "m".into(), ttl: 5 };
    let b = DnsRecord::MX { domain: "x".into(), priority: 1, host: "m".into(), ttl: 5 };
    let c = DnsRecord::MX { domain: "x".into(), priority: 2, host: "m".into(), ttl: 5 };
    assert_eq!(a, b);
    assert_ne!(a, c);
    let u1 = DnsRecord::UNKNOWN { domain: "x".into(), query_type: DnsQueryType::UNKNOWN(99), data: vec![1], ttl: 1 };
    let u2 = DnsRecord::UNKNOWN { domain: "x".into(), query_type: DnsQueryType::UNKNOWN(99), data: vec![2], ttl: 1 };
    assert_ne!(u1, u2);
}

#[test]
fn name_ending_at_the_capacity_reads_back() {
    let mut b = PacketBuffer::new();
    b.seek(507).unwrap();
    b.write_query_name("abc").unwrap();
    assert_eq!(b.pos, 512);
    b.seek(507).unwrap();
    assert_eq!(b.read_query_name(), Ok("abc".to_string()));
    assert_eq!(b.pos, 512);
}

#[test]
fn txt_record_ending_at_the_capacity_reads_back() {
    let r = DnsRecord::TXT { domain: "t".into(), text: "hello".into(), ttl: 9 };
    let mut b = PacketBuffer::new();
    // owner 3 bytes, fixed fields 10, text 5: 18 bytes in all
    b.seek(512 - 18).unwrap();
    r.write(&mut b).unwrap();
    assert_eq!(b.pos, 512);
    b.seek(512 - 18).unwrap();
    assert_eq!(DnsRecord::read(&mut b), Ok(r));
    assert_eq!(b.pos, 512);
}

#[test]
fn every_class_reads_back_as_itself() {
    let all = [
        DnsQueryClass::IN,
        DnsQueryClass::CH,
        DnsQueryClass::HS,
        DnsQueryClass::NONE,
        DnsQueryClass::ANY,
        DnsQueryClass::RESERVED,
        DnsQueryClass::ReservedPrivate,
        DnsQueryClass::UNASSIGNED,
    ];
    for c in all {
        assert_eq!(DnsQueryClass::from_u16(c.to_u16()), c);
        let mut q = DnsQuestion::new("example.org".into(), DnsQueryType::TXT);
        q.query_class = c;
        let mut b = PacketBuffer::new();
        q.write(&mut b).unwrap();
        b.seek(0).unwrap();
        assert_eq!(DnsQuestion::read(&mut b), Ok(q));
    }
}

#[test]
fn empty_name_is_written_as_an_empty_label() {
    let mut b = PacketBuffer::new();
    b.buffer[1] = 9;
    b.write_query_name("").unwrap();
    assert_eq!(&b.buffer[..2], &[0, 0]);
    assert_eq!(b.pos, 2);
    b.seek(0).unwrap();
    assert_eq!(b.read_query_name(), Ok(String::new()));
    assert_eq!(b.pos, 1);
}

use pingoc::dns::buffer::{PacketBuffer, PacketBufferError};
use pingoc::dns::header::DnsResponseCode;
use pingoc::dns::packet::{DnsPacket, IpAddress};
use pingoc::dns::query::{DnsQueryClass, DnsQueryType};
use pingoc::dns::record::DnsRecord;
use pingoc::dns::resolve::{
    ipv4_answer, ipv6_answer, public_resolver, query_packet, root_hint, Action, LookupError,
    Resolver, MAX_DEPTH, MAX_EXCHANGES, QUERY_ID,
};

const TLD: u32 = 0x0A00_0001;
const AUTH: u32 = 0x0A00_0002;
const ANSWER: u32 = 0x5DB8_D822;

/// Sends a message through the codec, as a stub transport would.
fn over_the_wire(p: &DnsPacket) -> DnsPacket {
    let mut b = PacketBuffer::new();
    p.write(&mut b).unwrap();
    b.seek(0).unwrap();
    DnsPacket::read(&mut b).unwrap()
}

fn delegation(zone: &str, host: &str, glue: Option<u32>) -> DnsPacket {
    let mut p = DnsPacket::new();
    p.header.query_response = true;
    p.authorities.push(DnsRecord::NS { domain: zone.into(), host: host.into(), ttl: 3600 });
    if let Some(a) = glue {
        p.additional.push(DnsRecord::A { domain: host.into(), addr: a, ttl: 3600 });
    }
    over_the_wire(&p)
}

fn answer(name: &str, addr: u32) -> DnsPacket {
    let mut p = DnsPacket::new();
    p.header.query_response = true;
    p.header.authoritative_answer = true;
    p.answers.push(DnsRecord::A { domain: name.into(), addr, ttl: 300 });
    over_the_wire(&p)
}

fn query_server(a: &Action) -> IpAddress {
    match a {
        Action::Query { server, .. } => *server,
        other => panic!("expected a query, got {:?}", other),
    }
}

#[test]
fn query_packet_shape() {
    let p = query_packet("example.com".into(), DnsQueryType::AAAA);
    assert_eq!(p.header.id, QUERY_ID);
    assert_eq!(p.header.question_count, 1);
    assert!(!p.header.recursion_desired);
    assert_eq!(p.questions.len(), 1);
    assert_eq!(p.questions[0].name, "example.com");
    assert_eq!(p.questions[0].query_type, DnsQueryType::AAAA);
    assert_eq!(p.questions[0].query_class, DnsQueryClass::IN);
    let mut b = PacketBuffer::new();
    p.write(&mut b).unwrap();
    assert_eq!(&b.buffer[..4], &[0x04, 0xD2, 0, 0]);
}

#[test]
fn well_known_servers() {
    assert_eq!(root_hint(), IpAddress::V4(0xC629_0004));
    assert_eq!(public_resolver(), IpAddress::V4(0x0808_0808));
}

#[test]
fn converges_through_three_levels() {
    let (mut r, first) = Resolver::start("example.com".into(), DnsQueryType::A, root_hint());
    let mut servers = vec![query_server(&first)];
    let a2 = r.step(Ok(delegation("com", "a.gtld-servers.net", Some(TLD))));
    servers.push(query_server(&a2));
    let a3 = r.step(Ok(delegation("example.com", "ns1.example.com", Some(AUTH))));
    servers.push(query_server(&a3));
    let done = r.step(Ok(answer("example.com", ANSWER)));
    assert_eq!(servers, vec![root_hint(), IpAddress::V4(TLD), IpAddress::V4(AUTH)]);
    assert_eq!(r.exchanges, 3);
    match done {
        Action::Done(Ok(p)) => {
            assert_eq!(p.get_record(DnsQueryType::A), Some(IpAddress::V4(ANSWER)));
        }
        other => panic!("unexpected {:?}", other),
    }
}

#[test]
fn nxdomain_is_returned_at_once() {
    let (mut r, _) = Resolver::start("nope.example".into(), DnsQueryType::A, root_hint());
    let mut p = delegation("example", "ns.example", Some(TLD));
    p.header.response_code = DnsResponseCode::NxDomain;
    match r.step(Ok(p)) {
        Action::Done(Ok(resp)) => {
            assert_eq!(resp.header.response_code, DnsResponseCode::NxDomain);
            assert_eq!(resp.authorities.len(), 1);
        }
        other => panic!("unexpected {:?}", other),
    }
    assert_eq!(r.exchanges, 1);
}

#[test]
fn glue_is_preferred_over_a_nested_lookup() {
    let (mut r, _) = Resolver::start("example.com".into(), DnsQueryType::A, root_hint());
    let mut p = DnsPacket::new();
    p.authorities.push(DnsRecord::NS { domain: "com".into(), host: "noglue.net".into(), ttl: 1 });
    p.authorities.push(DnsRecord::NS { domain: "com".into(), host: "glued.net".into(), ttl: 1 });
    p.additional.push(DnsRecord::A { domain: "glued.net".into(), addr: TLD, ttl: 1 });
    let next = r.step(Ok(p));
    assert_eq!(query_server(&next), IpAddress::V4(TLD));
    assert_eq!(r.frames.len(), 1);
}

#[test]
fn nested_lookup_without_glue() {
    let (mut r, _) = Resolver::start("example.com".into(), DnsQueryType::A, root_hint());
    let step1 = r.step(Ok(delegation("com", "ns.other.net", None)));
    match &step1 {
        Action::Query { name, query_type, server } => {
            assert_eq!(name, "ns.other.net");
            assert_eq!(*query_type, DnsQueryType::A);
            assert_eq!(*server, root_hint());
        }
        other => panic!("unexpected {:?}", other),
    }
    assert_eq!(r.frames.len(), 2);
    let step2 = r.step(Ok(answer("ns.other.net", TLD)));
    match &step2 {
        Action::Query { name, server, .. } => {
            assert_eq!(name, "example.com");
            assert_eq!(*server, IpAddress::V4(TLD));
        }
        other => panic!("unexpected {:?}", other),
    }
    assert_eq!(r.frames.len(), 1);
    match r.step(Ok(answer("example.com", ANSWER))) {
        Action::Done(Ok(p)) => assert_eq!(p.get_record(DnsQueryType::A), Some(IpAddress::V4(ANSWER))),
        other => panic!("unexpected {:?}", other),
    }
}

#[test]
fn nested_lookup_without_address_returns_last_response() {
    let (mut r, _) = Resolver::start("example.com".into(), DnsQueryType::A, root_hint());
    r.step(Ok(delegation("com", "ns.other.net", None)));
    let mut nx = DnsPacket::new();
    nx.header.response_code = DnsResponseCode::NxDomain;
    match r.step(Ok(nx)) {
        Action::Done(Ok(p)) => {
            assert_eq!(p.authorities.len(), 1);
            assert_eq!(p.get_uresolved_nameserver("example.com"), Some("ns.other.net".to_string()));
        }
        other => panic!("unexpected {:?}", other),
    }
}

#[test]
fn no_delegation_returns_the_response() {
    let (mut r, _) = Resolver::start("example.com".into(), DnsQueryType::A, root_hint());
    let mut p = DnsPacket::new();
    p.header.response_code = DnsResponseCode::ServFail;
    match r.step(Ok(p)) {
        Action::Done(Ok(resp)) => assert_eq!(resp.header.response_code, DnsResponseCode::ServFail),
        other => panic!("unexpected {:?}", other),
    }
}

#[test]
fn first_exchange_failure_is_an_error() {
    let (mut r, _) = Resolver::start("example.com".into(), DnsQueryType::A, root_hint());
    match r.step(Err(LookupError::Transport)) {
        Action::Done(Err(e)) => assert_eq!(e, LookupError::Transport),
        other => panic!("unexpected {:?}", other),
    }
}

#[test]
fn later_failure_returns_last_good_response() {
    let (mut r, _) = Resolver::start("example.com".into(), DnsQueryType::A, root_hint());
    r.step(Ok(delegation("com", "a.gtld-servers.net", Some(TLD))));
    match r.step(Err(LookupError::Decode(PacketBufferError::EndOfBuffer))) {
        Action::Done(Ok(p)) => assert_eq!(p.get_resolved_nameserver("example.com", DnsQueryType::A), Some(IpAddress::V4(TLD))),
        other => panic!("unexpected {:?}", other),
    }
}

#[test]
fn endless_referrals_are_cut_off() {
    let (mut r, _) = Resolver::start("example.com".into(), DnsQueryType::A, root_hint());
    let mut count = 1;
    loop {
        match r.step(Ok(delegation("com", "loop.net", Some(TLD)))) {
            Action::Query { .. } => count += 1,
            Action::Done(res) => {
                assert_eq!(res.map(|_| ()), Err(LookupError::Exhausted));
                break;
            }
        }
        assert!(count <= MAX_EXCHANGES);
    }
    assert_eq!(count, MAX_EXCHANGES);
}

#[test]
fn deep_nesting_is_cut_off() {
    let (mut r, _) = Resolver::start("example.com".into(), DnsQueryType::A, root_hint());
    let mut depth = 1;
    loop {
        let mut p = DnsPacket::new();
        p.authorities.push(DnsRecord::NS { domain: "".into(), host: format!("ns{}.net", depth), ttl: 1 });
        match r.step(Ok(p)) {
            Action::Query { .. } => depth += 1,
            Action::Done(res) => {
                assert_eq!(res.map(|_| ()), Err(LookupError::Exhausted));
                break;
            }
        }
        assert!(depth <= MAX_DEPTH);
    }
    assert_eq!(depth, MAX_DEPTH);
}

#[test]
fn address_answers() {
    let mut p = answer("example.com", ANSWER);
    assert_eq!(ipv4_answer(&p, true), Some(ANSWER));
    assert_eq!(ipv6_answer(&p, false), None);
    p.header.response_code = DnsResponseCode::ServFail;
    assert_eq!(ipv4_answer(&p, true), None);
    assert_eq!(ipv4_answer(&p, false), Some(ANSWER));
    p.answers.insert(0, DnsRecord::AAAA { domain: "example.com".into(), addr: 7, ttl: 1 });
    assert_eq!(ipv6_answer(&p, false), Some(7));
}

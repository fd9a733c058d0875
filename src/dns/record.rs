use crate::dns::buffer::{
    be128, be16, be32, fits, push_u128, push_u16, push_u32, spliced, u128_at, u16_at, u32_at,
    PacketBuffer, PacketBufferError,
};
use crate::dns::buffer::{
    lemma_sub_concat, lemma_u128_at, lemma_u16_at, lemma_u32_at, BUFFER_SIZE,
};
use crate::dns::name::{
    append_bytes, encode_name, lemma_name_round_trip, name_wire, read_name, well_formed_name,
    writable_name,
};
use crate::dns::query::canonical_query_type;
use crate::dns::query::{query_type_of, query_type_value, DnsQueryType};
use vstd::prelude::*;
use vstd::utf8::*;

verus! {

/// A resource record as values: names as characters, addresses as integers.
pub enum RecordView {
    A { domain: Seq<char>, addr: u32, ttl: u32 },
    NS { domain: Seq<char>, host: Seq<char>, ttl: u32 },
    CNAME { domain: Seq<char>, host: Seq<char>, ttl: u32 },
    SOA {
        domain: Seq<char>,
        primary_ns: Seq<char>,
        mailbox: Seq<char>,
        serial: u32,
        refresh: u32,
        retry: u32,
        expire: u32,
        minimum_ttl: u32,
        ttl: u32,
    },
    PTR { domain: Seq<char>, host: Seq<char>, ttl: u32 },
    MX { domain: Seq<char>, priority: u16, host: Seq<char>, ttl: u32 },
    TXT { domain: Seq<char>, text: Seq<char>, ttl: u32 },
    AAAA { domain: Seq<char>, addr: u128, ttl: u32 },
    SRV {
        domain: Seq<char>,
        priority: u16,
        weight: u16,
        port: u16,
        target: Seq<char>,
        ttl: u32,
    },
    UNKNOWN { domain: Seq<char>, query_type: DnsQueryType, data: Seq<u8>, ttl: u32 },
}

/// One entry of the answer, authority or additional section. An IPv4
/// address is held as its 32-bit value and an IPv6 address as its 128-bit
/// value, most significant byte first on the wire.
#[derive(Debug)]
pub enum DnsRecord {
    /// A domain's IPv4 address.
    A { domain: String, addr: u32, ttl: u32 },
    /// A domain's name server.
    NS { domain: String, host: String, ttl: u32 },
    /// A domain's canonical name.
    CNAME { domain: String, host: String, ttl: u32 },
    /// A zone's start of authority.
    SOA {
        domain: String,
        primary_ns: String,
        mailbox: String,
        serial: u32,
        refresh: u32,
        retry: u32,
        expire: u32,
        minimum_ttl: u32,
        ttl: u32,
    },
    /// The name that an address points back to.
    PTR { domain: String, host: String, ttl: u32 },
    /// A domain's mail exchange.
    MX { domain: String, priority: u16, host: String, ttl: u32 },
    /// Free text about a domain.
    TXT { domain: String, text: String, ttl: u32 },
    /// A domain's IPv6 address.
    AAAA { domain: String, addr: u128, ttl: u32 },
    /// The location of a service.
    SRV { domain: String, priority: u16, weight: u16, port: u16, target: String, ttl: u32 },
    /// A record of any other kind, with its data as raw bytes.
    UNKNOWN { domain: String, query_type: DnsQueryType, data: Vec<u8>, ttl: u32 },
}

impl View for DnsRecord {
    type V = RecordView;

    open spec fn view(&self) -> RecordView {
        match self {
            DnsRecord::A { domain, addr, ttl } => RecordView::A {
                domain: domain@,
                addr: *addr,
                ttl: *ttl,
            },
            DnsRecord::NS { domain, host, ttl } => RecordView::NS {
                domain: domain@,
                host: host@,
                ttl: *ttl,
            },
            DnsRecord::CNAME { domain, host, ttl } => RecordView::CNAME {
                domain: domain@,
                host: host@,
                ttl: *ttl,
            },
            DnsRecord::SOA {
                domain,
                primary_ns,
                mailbox,
                serial,
                refresh,
                retry,
                expire,
                minimum_ttl,
                ttl,
            } => RecordView::SOA {
                domain: domain@,
                primary_ns: primary_ns@,
                mailbox: mailbox@,
                serial: *serial,
                refresh: *refresh,
                retry: *retry,
                expire: *expire,
                minimum_ttl: *minimum_ttl,
                ttl: *ttl,
            },
            DnsRecord::PTR { domain, host, ttl } => RecordView::PTR {
                domain: domain@,
                host: host@,
                ttl: *ttl,
            },
            DnsRecord::MX { domain, priority, host, ttl } => RecordView::MX {
                domain: domain@,
                priority: *priority,
                host: host@,
                ttl: *ttl,
            },
            DnsRecord::TXT { domain, text, ttl } => RecordView::TXT {
                domain: domain@,
                text: text@,
                ttl: *ttl,
            },
            DnsRecord::AAAA { domain, addr, ttl } => RecordView::AAAA {
                domain: domain@,
                addr: *addr,
                ttl: *ttl,
            },
            DnsRecord::SRV { domain, priority, weight, port, target, ttl } => RecordView::SRV {
                domain: domain@,
                priority: *priority,
                weight: *weight,
                port: *port,
                target: target@,
                ttl: *ttl,
            },
            DnsRecord::UNKNOWN { domain, query_type, data, ttl } => RecordView::UNKNOWN {
                domain: domain@,
                query_type: *query_type,
                data: data@,
                ttl: *ttl,
            },
        }
    }
}

fn same_bytes(a: &Vec<u8>, b: &Vec<u8>) -> (r: bool)
    ensures
        r == (a@ == b@),
{
    if a.len() != b.len() {
        return false;
    }
    let mut i: usize = 0;
    while i < a.len()
        invariant
            0 <= i <= a@.len(),
            a@.len() == b@.len(),
            forall|k: int| 0 <= k < i ==> a@[k] == b@[k],
        decreases a@.len() - i,
    {
        if a[i] != b[i] {
            return false;
        }
        i = i + 1;
    }
    assert(a@ =~= b@);
    true
}

impl PartialEq for DnsRecord {
    fn eq(&self, other: &DnsRecord) -> (r: bool)
        ensures
            r == (self@ == other@),
    {
        match (self, other) {
            (
                DnsRecord::A { domain: d1, addr: a1, ttl: t1 },
                DnsRecord::A { domain: d2, addr: a2, ttl: t2 },
            ) => *d1 == *d2 && a1 == a2 && t1 == t2,
            (
                DnsRecord::NS { domain: d1, host: h1, ttl: t1 },
                DnsRecord::NS { domain: d2, host: h2, ttl: t2 },
            ) => *d1 == *d2 && *h1 == *h2 && t1 == t2,
            (
                DnsRecord::CNAME { domain: d1, host: h1, ttl: t1 },
                DnsRecord::CNAME { domain: d2, host: h2, ttl: t2 },
            ) => *d1 == *d2 && *h1 == *h2 && t1 == t2,
            (
                DnsRecord::SOA {
                    domain: d1,
                    primary_ns: ns1,
                    mailbox: m1,
                    serial: s1,
                    refresh: r1,
                    retry: y1,
                    expire: e1,
                    minimum_ttl: n1,
                    ttl: t1,
                },
                DnsRecord::SOA {
                    domain: d2,
                    primary_ns: ns2,
                    mailbox: m2,
                    serial: s2,
                    refresh: r2,
                    retry: y2,
                    expire: e2,
                    minimum_ttl: n2,
                    ttl: t2,
                },
            ) => *d1 == *d2 && *ns1 == *ns2 && *m1 == *m2 && s1 == s2 && r1 == r2 && y1 == y2 && e1
                == e2 && n1 == n2 && t1 == t2,
            (
                DnsRecord::PTR { domain: d1, host: h1, ttl: t1 },
                DnsRecord::PTR { domain: d2, host: h2, ttl: t2 },
            ) => *d1 == *d2 && *h1 == *h2 && t1 == t2,
            (
                DnsRecord::MX { domain: d1, priority: pr1, host: h1, ttl: t1 },
                DnsRecord::MX { domain: d2, priority: pr2, host: h2, ttl: t2 },
            ) => *d1 == *d2 && pr1 == pr2 && *h1 == *h2 && t1 == t2,
            (
                DnsRecord::TXT { domain: d1, text: x1, ttl: t1 },
                DnsRecord::TXT { domain: d2, text: x2, ttl: t2 },
            ) => *d1 == *d2 && *x1 == *x2 && t1 == t2,
            (
                DnsRecord::AAAA { domain: d1, addr: a1, ttl: t1 },
                DnsRecord::AAAA { domain: d2, addr: a2, ttl: t2 },
            ) => *d1 == *d2 && a1 == a2 && t1 == t2,
            (
                DnsRecord::SRV { domain: d1, priority: pr1, weight: w1, port: o1, target: g1, ttl: t1 },
                DnsRecord::SRV { domain: d2, priority: pr2, weight: w2, port: o2, target: g2, ttl: t2 },
            ) => *d1 == *d2 && pr1 == pr2 && w1 == w2 && o1 == o2 && *g1 == *g2 && t1 == t2,
            (
                DnsRecord::UNKNOWN { domain: d1, query_type: q1, data: x1, ttl: t1 },
                DnsRecord::UNKNOWN { domain: d2, query_type: q2, data: x2, ttl: t2 },
            ) => *d1 == *d2 && q1 == q2 && same_bytes(x1, x2) && t1 == t2,
            _ => false,
        }
    }
}

impl vstd::std_specs::cmp::PartialEqSpecImpl for DnsRecord {
    open spec fn obeys_eq_spec() -> bool {
        true
    }

    open spec fn eq_spec(&self, other: &DnsRecord) -> bool {
        self@ == other@
    }
}

impl Eq for DnsRecord {

}

/// What text decoding with replacement makes of some bytes: each ill-formed
/// sequence becomes U+FFFD.
pub uninterp spec fn utf8_lossy(b: Seq<u8>) -> Seq<char>;

/// Relies on `String::from_utf8_lossy`: valid UTF-8 is decoded as it is, and
/// the result depends on the bytes alone.
#[verifier::external_body]
fn lossy_text(b: &[u8]) -> (r: String)
    ensures
        r@ == utf8_lossy(b@),
        valid_utf8(b@) ==> r@ == decode_utf8(b@),
{
    String::from_utf8_lossy(b).into_owned()
}

/// The text that TXT data stands for: its characters where it is valid
/// UTF-8, else the text with replacement characters.
pub open spec fn text_of(b: Seq<u8>) -> Seq<char> {
    if valid_utf8(b) {
        decode_utf8(b)
    } else {
        utf8_lossy(b)
    }
}

/// The wire form of a name held as characters.
pub open spec fn text_name_wire(s: Seq<char>) -> Seq<u8> {
    name_wire(encode_utf8(s))
}

/// Whether a name held as characters can be written.
pub open spec fn writable_text_name(s: Seq<char>) -> bool {
    writable_name(encode_utf8(s))
}

/// The owner name of a record.
pub open spec fn record_domain(r: RecordView) -> Seq<char> {
    match r {
        RecordView::A { domain, .. } => domain,
        RecordView::NS { domain, .. } => domain,
        RecordView::CNAME { domain, .. } => domain,
        RecordView::SOA { domain, .. } => domain,
        RecordView::PTR { domain, .. } => domain,
        RecordView::MX { domain, .. } => domain,
        RecordView::TXT { domain, .. } => domain,
        RecordView::AAAA { domain, .. } => domain,
        RecordView::SRV { domain, .. } => domain,
        RecordView::UNKNOWN { domain, .. } => domain,
    }
}

/// The time to live of a record.
pub open spec fn record_ttl(r: RecordView) -> u32 {
    match r {
        RecordView::A { ttl, .. } => ttl,
        RecordView::NS { ttl, .. } => ttl,
        RecordView::CNAME { ttl, .. } => ttl,
        RecordView::SOA { ttl, .. } => ttl,
        RecordView::PTR { ttl, .. } => ttl,
        RecordView::MX { ttl, .. } => ttl,
        RecordView::TXT { ttl, .. } => ttl,
        RecordView::AAAA { ttl, .. } => ttl,
        RecordView::SRV { ttl, .. } => ttl,
        RecordView::UNKNOWN { ttl, .. } => ttl,
    }
}

/// The type code written for a record.
pub open spec fn record_type_value(r: RecordView) -> u16 {
    match r {
        RecordView::A { .. } => 1,
        RecordView::NS { .. } => 2,
        RecordView::CNAME { .. } => 5,
        RecordView::SOA { .. } => 6,
        RecordView::PTR { .. } => 12,
        RecordView::MX { .. } => 15,
        RecordView::TXT { .. } => 16,
        RecordView::AAAA { .. } => 28,
        RecordView::SRV { .. } => 33,
        RecordView::UNKNOWN { query_type, .. } => query_type_value(query_type),
    }
}

/// Whether every name in a record can be written.
pub open spec fn writable_record(r: RecordView) -> bool {
    writable_text_name(record_domain(r)) && match r {
        RecordView::NS { host, .. } => writable_text_name(host),
        RecordView::CNAME { host, .. } => writable_text_name(host),
        RecordView::PTR { host, .. } => writable_text_name(host),
        RecordView::MX { host, .. } => writable_text_name(host),
        RecordView::SOA { primary_ns, mailbox, .. } => writable_text_name(primary_ns)
            && writable_text_name(mailbox),
        RecordView::SRV { target, .. } => writable_text_name(target),
        _ => true,
    }
}

/// The data part of a record on the wire.
pub open spec fn rdata_wire(r: RecordView) -> Seq<u8> {
    match r {
        RecordView::A { addr, .. } => be32(addr),
        RecordView::NS { host, .. } => text_name_wire(host),
        RecordView::CNAME { host, .. } => text_name_wire(host),
        RecordView::SOA { primary_ns, mailbox, serial, refresh, retry, expire, minimum_ttl, .. } =>
            text_name_wire(primary_ns) + text_name_wire(mailbox) + be32(serial) + be32(refresh)
            + be32(retry) + be32(expire) + be32(minimum_ttl),
        RecordView::PTR { host, .. } => text_name_wire(host),
        RecordView::MX { priority, host, .. } => be16(priority) + text_name_wire(host),
        RecordView::TXT { text, .. } => encode_utf8(text),
        RecordView::AAAA { addr, .. } => be128(addr),
        RecordView::SRV { priority, weight, port, target, .. } => be16(priority) + be16(weight)
            + be16(port) + text_name_wire(target),
        RecordView::UNKNOWN { data, .. } => data,
    }
}

/// The wire form of a record whose names can be written: owner name, type
/// code, class IN, time to live, data length and data.
pub open spec fn record_wire(r: RecordView) -> Seq<u8> {
    text_name_wire(record_domain(r)) + be16(record_type_value(r)) + be16(1) + be32(record_ttl(r))
        + be16(rdata_wire(r).len() as u16) + rdata_wire(r)
}

/// `r` with its end position kept, or its error.
pub open spec fn then_record(
    r: Result<(Seq<char>, int), PacketBufferError>,
    f: spec_fn(Seq<char>) -> RecordView,
) -> Result<(RecordView, int), PacketBufferError> {
    match r {
        Ok((s, c)) => Ok((f(s), c)),
        Err(e) => Err(e),
    }
}

/// What reading the data of a record of type `t` at `p` gives, once its owner
/// name, time to live and data length `len` are known.
pub open spec fn parse_rdata(
    buf: Seq<u8>,
    p: int,
    t: DnsQueryType,
    domain: Seq<char>,
    ttl: u32,
    len: u16,
) -> Result<(RecordView, int), PacketBufferError> {
    match t {
        DnsQueryType::A => if !fits(p, 4) {
            Err(PacketBufferError::EndOfBuffer)
        } else {
            Ok((RecordView::A { domain, addr: u32_at(buf, p), ttl }, p + 4))
        },
        DnsQueryType::NS => then_record(
            read_name(buf, p),
            |host: Seq<char>| RecordView::NS { domain, host, ttl },
        ),
        DnsQueryType::CNAME => then_record(
            read_name(buf, p),
            |host: Seq<char>| RecordView::CNAME { domain, host, ttl },
        ),
        DnsQueryType::SOA => match read_name(buf, p) {
            Err(e) => Err(e),
            Ok((primary_ns, c1)) => match read_name(buf, c1) {
                Err(e) => Err(e),
                Ok((mailbox, c2)) => if !fits(c2, 20) {
                    Err(PacketBufferError::EndOfBuffer)
                } else {
                    Ok(
                        (
                            RecordView::SOA {
                                domain,
                                primary_ns,
                                mailbox,
                                serial: u32_at(buf, c2),
                                refresh: u32_at(buf, c2 + 4),
                                retry: u32_at(buf, c2 + 8),
                                expire: u32_at(buf, c2 + 12),
                                minimum_ttl: u32_at(buf, c2 + 16),
                                ttl,
                            },
                            c2 + 20,
                        ),
                    )
                },
            },
        },
        DnsQueryType::PTR => then_record(
            read_name(buf, p),
            |host: Seq<char>| RecordView::PTR { domain, host, ttl },
        ),
        DnsQueryType::MX => if !fits(p, 2) {
            Err(PacketBufferError::EndOfBuffer)
        } else {
            then_record(
                read_name(buf, p + 2),
                |host: Seq<char>| RecordView::MX { domain, priority: u16_at(buf, p), host, ttl },
            )
        },
        DnsQueryType::TXT => if !fits(p, len as int) {
            Err(PacketBufferError::EndOfBuffer)
        } else {
            Ok(
                (
                    RecordView::TXT { domain, text: text_of(buf.subrange(p, p + len)), ttl },
                    p + len,
                ),
            )
        },
        DnsQueryType::AAAA => if !fits(p, 16) {
            Err(PacketBufferError::EndOfBuffer)
        } else {
            Ok((RecordView::AAAA { domain, addr: u128_at(buf, p), ttl }, p + 16))
        },
        DnsQueryType::SRV => if !fits(p, 6) {
            Err(PacketBufferError::EndOfBuffer)
        } else {
            then_record(
                read_name(buf, p + 6),
                |target: Seq<char>|
                    RecordView::SRV {
                        domain,
                        priority: u16_at(buf, p),
                        weight: u16_at(buf, p + 2),
                        port: u16_at(buf, p + 4),
                        target,
                        ttl,
                    },
            )
        },
        DnsQueryType::UNKNOWN(_) => if !fits(p, len as int) {
            Err(PacketBufferError::EndOfBuffer)
        } else {
            Ok(
                (
                    RecordView::UNKNOWN {
                        domain,
                        query_type: t,
                        data: buf.subrange(p, p + len),
                        ttl,
                    },
                    p + len,
                ),
            )
        },
    }
}

/// What reading a record at `pos` of `buf` gives: the record and the cursor
/// after it, or an error. The class is read and dropped; the data length
/// bounds only TXT and unknown data.
pub open spec fn parse_record(buf: Seq<u8>, pos: int) -> Result<(RecordView, int), PacketBufferError> {
    match read_name(buf, pos) {
        Err(e) => Err(e),
        Ok((domain, c)) => if !fits(c, 10) {
            Err(PacketBufferError::EndOfBuffer)
        } else {
            parse_rdata(
                buf,
                c + 10,
                query_type_of(u16_at(buf, c)),
                domain,
                u32_at(buf, c + 4),
                u16_at(buf, c + 8),
            )
        },
    }
}

/// Whether a record is of the kind `t`: a known kind by its variant, an
/// unknown one by the type it carries.
pub open spec fn record_matches(r: RecordView, t: DnsQueryType) -> bool {
    match r {
        RecordView::A { .. } => t == DnsQueryType::A,
        RecordView::NS { .. } => t == DnsQueryType::NS,
        RecordView::CNAME { .. } => t == DnsQueryType::CNAME,
        RecordView::SOA { .. } => t == DnsQueryType::SOA,
        RecordView::PTR { .. } => t == DnsQueryType::PTR,
        RecordView::MX { .. } => t == DnsQueryType::MX,
        RecordView::TXT { .. } => t == DnsQueryType::TXT,
        RecordView::AAAA { .. } => t == DnsQueryType::AAAA,
        RecordView::SRV { .. } => t == DnsQueryType::SRV,
        RecordView::UNKNOWN { query_type, .. } => query_type == t,
    }
}

/// The wire form of a name held in a string, or the error that stops it.
pub fn encode_text_name(s: &String) -> (r: Result<Vec<u8>, PacketBufferError>)
    ensures
        writable_text_name(s@) ==> r is Ok && r->Ok_0@ == text_name_wire(s@),
        !writable_text_name(s@) ==> r == Err::<Vec<u8>, _>(PacketBufferError::InvalidLabelLength),
{
    encode_name(s.as_str().as_bytes())
}

/// The wire form of a record, or the error that stops it from being written.
pub fn encode_record(record: &DnsRecord) -> (r: Result<Vec<u8>, PacketBufferError>)
    ensures
        writable_record(record@) ==> r is Ok && r->Ok_0@ == record_wire(record@),
        !writable_record(record@) ==> r == Err::<Vec<u8>, _>(
            PacketBufferError::InvalidLabelLength,
        ),
{
    let (domain, type_code, ttl) = match record {
        DnsRecord::A { domain, ttl, .. } => (domain, 1u16, *ttl),
        DnsRecord::NS { domain, ttl, .. } => (domain, 2u16, *ttl),
        DnsRecord::CNAME { domain, ttl, .. } => (domain, 5u16, *ttl),
        DnsRecord::SOA { domain, ttl, .. } => (domain, 6u16, *ttl),
        DnsRecord::PTR { domain, ttl, .. } => (domain, 12u16, *ttl),
        DnsRecord::MX { domain, ttl, .. } => (domain, 15u16, *ttl),
        DnsRecord::TXT { domain, ttl, .. } => (domain, 16u16, *ttl),
        DnsRecord::AAAA { domain, ttl, .. } => (domain, 28u16, *ttl),
        DnsRecord::SRV { domain, ttl, .. } => (domain, 33u16, *ttl),
        DnsRecord::UNKNOWN { domain, query_type, ttl, .. } => (domain, query_type.to_u16(), *ttl),
    };
    let mut out = match encode_text_name(domain) {
        Ok(w) => w,
        Err(e) => {
            return Err(e);
        },
    };
    let mut rdata: Vec<u8> = Vec::new();
    match record {
        DnsRecord::A { addr, .. } => {
            push_u32(&mut rdata, *addr);
        },
        DnsRecord::NS { host, .. } | DnsRecord::CNAME { host, .. } | DnsRecord::PTR {
            host,
            ..
        } => {
            let w = encode_text_name(host)?;
            append_bytes(&mut rdata, w.as_slice());
        },
        DnsRecord::SOA { primary_ns, mailbox, serial, refresh, retry, expire, minimum_ttl, .. } => {
            let w1 = encode_text_name(primary_ns)?;
            let w2 = encode_text_name(mailbox)?;
            append_bytes(&mut rdata, w1.as_slice());
            append_bytes(&mut rdata, w2.as_slice());
            push_u32(&mut rdata, *serial);
            push_u32(&mut rdata, *refresh);
            push_u32(&mut rdata, *retry);
            push_u32(&mut rdata, *expire);
            push_u32(&mut rdata, *minimum_ttl);
        },
        DnsRecord::MX { priority, host, .. } => {
            let w = encode_text_name(host)?;
            push_u16(&mut rdata, *priority);
            append_bytes(&mut rdata, w.as_slice());
        },
        DnsRecord::TXT { text, .. } => {
            append_bytes(&mut rdata, text.as_str().as_bytes());
        },
        DnsRecord::AAAA { addr, .. } => {
            push_u128(&mut rdata, *addr);
        },
        DnsRecord::SRV { priority, weight, port, target, .. } => {
            let w = encode_text_name(target)?;
            push_u16(&mut rdata, *priority);
            push_u16(&mut rdata, *weight);
            push_u16(&mut rdata, *port);
            append_bytes(&mut rdata, w.as_slice());
        },
        DnsRecord::UNKNOWN { data, .. } => {
            append_bytes(&mut rdata, data.as_slice());
        },
    }
    assert(rdata@ =~= rdata_wire(record@));
    push_u16(&mut out, type_code);
    push_u16(&mut out, 1);
    push_u32(&mut out, ttl);
    push_u16(&mut out, rdata.len() as u16);
    append_bytes(&mut out, rdata.as_slice());
    Ok(out)
}

impl DnsRecord {
    /// Reads a record at the cursor: owner name, type, class, time to live,
    /// data length, then the data in the layout of its type.
    pub fn read(buffer: &mut PacketBuffer) -> (r: Result<DnsRecord, PacketBufferError>)
        ensures
            old(buffer).pos <= BUFFER_SIZE ==> final(buffer).pos <= BUFFER_SIZE,
            final(buffer).buffer == old(buffer).buffer,
            match parse_record(old(buffer).bytes(), old(buffer).pos as int) {
                Ok((rec, c)) => r is Ok && r->Ok_0@ == rec && final(buffer).pos == c,
                Err(e) => r == Err::<DnsRecord, _>(e),
            },
    {
        let domain = buffer.read_query_name()?;
        if buffer.pos > BUFFER_SIZE - 10 {
            return Err(PacketBufferError::EndOfBuffer);
        }
        let query_type = DnsQueryType::from_u16(buffer.read_u16()?);
        let _query_class = buffer.read_u16()?;
        let ttl = buffer.read_u32()?;
        let length = buffer.read_u16()?;
        match query_type {
            DnsQueryType::A => {
                let addr = buffer.read_u32()?;
                Ok(DnsRecord::A { domain, addr, ttl })
            },
            DnsQueryType::NS => {
                let host = buffer.read_query_name()?;
                Ok(DnsRecord::NS { domain, host, ttl })
            },
            DnsQueryType::CNAME => {
                let host = buffer.read_query_name()?;
                Ok(DnsRecord::CNAME { domain, host, ttl })
            },
            DnsQueryType::SOA => {
                let primary_ns = buffer.read_query_name()?;
                let mailbox = buffer.read_query_name()?;
                if buffer.pos > BUFFER_SIZE - 20 {
                    return Err(PacketBufferError::EndOfBuffer);
                }
                let serial = buffer.read_u32()?;
                let refresh = buffer.read_u32()?;
                let retry = buffer.read_u32()?;
                let expire = buffer.read_u32()?;
                let minimum_ttl = buffer.read_u32()?;
                Ok(
                    DnsRecord::SOA {
                        domain,
                        primary_ns,
                        mailbox,
                        serial,
                        refresh,
                        retry,
                        expire,
                        minimum_ttl,
                        ttl,
                    },
                )
            },
            DnsQueryType::PTR => {
                let host = buffer.read_query_name()?;
                Ok(DnsRecord::PTR { domain, host, ttl })
            },
            DnsQueryType::MX => {
                let priority = buffer.read_u16()?;
                let host = buffer.read_query_name()?;
                Ok(DnsRecord::MX { domain, priority, host, ttl })
            },
            DnsQueryType::TXT => {
                let txt_data = buffer.read_bytes(length as usize)?;
                let text = lossy_text(txt_data.as_slice());
                Ok(DnsRecord::TXT { domain, text, ttl })
            },
            DnsQueryType::AAAA => {
                let addr = buffer.read_u128()?;
                Ok(DnsRecord::AAAA { domain, addr, ttl })
            },
            DnsQueryType::SRV => {
                if buffer.pos > BUFFER_SIZE - 6 {
                    return Err(PacketBufferError::EndOfBuffer);
                }
                let priority = buffer.read_u16()?;
                let weight = buffer.read_u16()?;
                let port = buffer.read_u16()?;
                let target = buffer.read_query_name()?;
                Ok(DnsRecord::SRV { domain, priority, weight, port, target, ttl })
            },
            DnsQueryType::UNKNOWN(_) => {
                let data = buffer.read_bytes(length as usize)?;
                Ok(DnsRecord::UNKNOWN { domain, query_type, data, ttl })
            },
        }
    }

    /// Writes the record at the cursor, every name uncompressed and the data
    /// length computed for its kind. A name that cannot be written, or a
    /// record that does not fit, fails and leaves the buffer as it was.
    pub fn write(&self, buffer: &mut PacketBuffer) -> (r: Result<(), PacketBufferError>)
        ensures
            old(buffer).pos <= BUFFER_SIZE ==> final(buffer).pos <= BUFFER_SIZE,
            !writable_record(self@) ==> r == Err::<(), _>(PacketBufferError::InvalidLabelLength)
                && *final(buffer) == *old(buffer),
            writable_record(self@) && fits(
                old(buffer).pos as int,
                record_wire(self@).len() as int,
            ) ==> r is Ok && final(buffer).pos == old(buffer).pos + record_wire(self@).len()
                && final(buffer).bytes() == spliced(
                old(buffer).bytes(),
                old(buffer).pos as int,
                record_wire(self@),
            ),
            writable_record(self@) && !fits(
                old(buffer).pos as int,
                record_wire(self@).len() as int,
            ) ==> r == Err::<(), _>(PacketBufferError::EndOfBuffer) && *final(buffer) == *old(buffer),
    {
        match encode_record(self) {
            Ok(w) => buffer.write_bytes(w.as_slice()),
            Err(e) => Err(e),
        }
    }

    /// Whether this record is of the kind `query_type`.
    pub fn matches_query_type(&self, query_type: DnsQueryType) -> (r: bool)
        ensures
            r == record_matches(self@, query_type),
    {
        match self {
            DnsRecord::A { .. } => query_type == DnsQueryType::A,
            DnsRecord::NS { .. } => query_type == DnsQueryType::NS,
            DnsRecord::CNAME { .. } => query_type == DnsQueryType::CNAME,
            DnsRecord::SOA { .. } => query_type == DnsQueryType::SOA,
            DnsRecord::PTR { .. } => query_type == DnsQueryType::PTR,
            DnsRecord::MX { .. } => query_type == DnsQueryType::MX,
            DnsRecord::TXT { .. } => query_type == DnsQueryType::TXT,
            DnsRecord::AAAA { .. } => query_type == DnsQueryType::AAAA,
            DnsRecord::SRV { .. } => query_type == DnsQueryType::SRV,
            DnsRecord::UNKNOWN { query_type: own, .. } => *own == query_type,
        }
    }
}


/// Whether a record comes back unchanged from its wire form: each of its
/// names has labels of one to 63 bytes, and an unknown record carries a type
/// code that no known kind has.
pub open spec fn well_formed_record(r: RecordView) -> bool {
    well_formed_name(record_domain(r)) && match r {
        RecordView::NS { host, .. } => well_formed_name(host),
        RecordView::CNAME { host, .. } => well_formed_name(host),
        RecordView::PTR { host, .. } => well_formed_name(host),
        RecordView::MX { host, .. } => well_formed_name(host),
        RecordView::SOA { primary_ns, mailbox, .. } => well_formed_name(primary_ns)
            && well_formed_name(mailbox),
        RecordView::SRV { target, .. } => well_formed_name(target),
        RecordView::UNKNOWN { query_type, .. } => query_type is UNKNOWN && canonical_query_type(
            query_type,
        ),
        _ => true,
    }
}

/// The owner name, type, time to live and data length of a record written at
/// `p` read back as themselves.
#[verifier::spinoff_prover]
proof fn lemma_record_head(buf: Seq<u8>, p: int, r: RecordView)
    requires
        buf.len() == BUFFER_SIZE,
        0 <= p,
        well_formed_record(r),
        p + record_wire(r).len() <= BUFFER_SIZE,
        buf.subrange(p, p + record_wire(r).len()) == record_wire(r),
    ensures
        ({
            let c0 = p + text_name_wire(record_domain(r)).len();
            let rd = rdata_wire(r);
            &&& read_name(buf, p) == Ok::<(Seq<char>, int), PacketBufferError>(
                (record_domain(r), c0),
            )
            &&& fits(c0, 10)
            &&& u16_at(buf, c0) == record_type_value(r)
            &&& u32_at(buf, c0 + 4) == record_ttl(r)
            &&& u16_at(buf, c0 + 8) == rd.len() as u16
            &&& buf.subrange(c0 + 10, c0 + 10 + rd.len()) == rd
            &&& record_wire(r).len() == text_name_wire(record_domain(r)).len() + 10 + rd.len()
        }),
        writable_text_name(record_domain(r)),
{
    let h = text_name_wire(record_domain(r));
    let t = be16(record_type_value(r));
    let c = be16(1);
    let tt = be32(record_ttl(r));
    let rd = rdata_wire(r);
    let l = be16(rd.len() as u16);
    lemma_sub_concat(buf, p, h + t + c + tt + l, rd);
    lemma_sub_concat(buf, p, h + t + c + tt, l);
    lemma_sub_concat(buf, p, h + t + c, tt);
    lemma_sub_concat(buf, p, h + t, c);
    lemma_sub_concat(buf, p, h, t);
    lemma_name_round_trip(buf, p, record_domain(r));
    let c0 = p + h.len();
    lemma_u16_at(buf, c0, record_type_value(r));
    lemma_u32_at(buf, c0 + 4, record_ttl(r));
    lemma_u16_at(buf, c0 + 8, rd.len() as u16);
}

/// The data of an SOA record read back as itself.
#[verifier::spinoff_prover]
proof fn lemma_soa_round_trip(buf: Seq<u8>, q0: int, r: RecordView)
    requires
        buf.len() == BUFFER_SIZE,
        0 <= q0,
        r is SOA,
        well_formed_record(r),
        q0 + rdata_wire(r).len() <= BUFFER_SIZE,
        buf.subrange(q0, q0 + rdata_wire(r).len()) == rdata_wire(r),
    ensures
        writable_record(r),
        parse_rdata(buf, q0, DnsQueryType::SOA, record_domain(r), record_ttl(r), rdata_wire(r).len() as u16)
            == Ok::<(RecordView, int), PacketBufferError>((r, q0 + rdata_wire(r).len())),
{
    match r {
        RecordView::SOA { primary_ns, mailbox, serial, refresh, retry, expire, minimum_ttl, .. } => {
        let n1 = text_name_wire(primary_ns);
        let n2 = text_name_wire(mailbox);
        lemma_sub_concat(
            buf,
            q0,
            n1 + n2 + be32(serial) + be32(refresh) + be32(retry) + be32(expire),
            be32(minimum_ttl),
        );
        lemma_sub_concat(buf, q0, n1 + n2 + be32(serial) + be32(refresh) + be32(retry), be32(expire));
        lemma_sub_concat(buf, q0, n1 + n2 + be32(serial) + be32(refresh), be32(retry));
        lemma_sub_concat(buf, q0, n1 + n2 + be32(serial), be32(refresh));
        lemma_sub_concat(buf, q0, n1 + n2, be32(serial));
        lemma_sub_concat(buf, q0, n1, n2);
        lemma_name_round_trip(buf, q0, primary_ns);
        lemma_name_round_trip(buf, q0 + n1.len(), mailbox);
        let v0 = q0 + n1.len() + n2.len();
        lemma_u32_at(buf, v0, serial);
        lemma_u32_at(buf, v0 + 4, refresh);
        lemma_u32_at(buf, v0 + 8, retry);
        lemma_u32_at(buf, v0 + 12, expire);
        lemma_u32_at(buf, v0 + 16, minimum_ttl);
        },
        _ => {},
    }
}

/// The data of a record other than SOA read back as itself.
#[verifier::spinoff_prover]
#[verifier::rlimit(40)]
proof fn lemma_rdata_round_trip(buf: Seq<u8>, q0: int, r: RecordView)
    requires
        buf.len() == BUFFER_SIZE,
        0 <= q0,
        !(r is SOA),
        well_formed_record(r),
        q0 + rdata_wire(r).len() <= BUFFER_SIZE,
        buf.subrange(q0, q0 + rdata_wire(r).len()) == rdata_wire(r),
    ensures
        writable_record(r) <== writable_text_name(record_domain(r)),
        parse_rdata(
            buf,
            q0,
            query_type_of(record_type_value(r)),
            record_domain(r),
            record_ttl(r),
            rdata_wire(r).len() as u16,
        ) == Ok::<(RecordView, int), PacketBufferError>((r, q0 + rdata_wire(r).len())),
{
    match r {
        RecordView::A { addr, .. } => {
            lemma_u32_at(buf, q0, addr);
        },
        RecordView::NS { host, .. } => {
            lemma_name_round_trip(buf, q0, host);
        },
        RecordView::CNAME { host, .. } => {
            lemma_name_round_trip(buf, q0, host);
        },
        RecordView::PTR { host, .. } => {
            lemma_name_round_trip(buf, q0, host);
        },
        RecordView::MX { priority, host, .. } => {
            lemma_sub_concat(buf, q0, be16(priority), text_name_wire(host));
            lemma_u16_at(buf, q0, priority);
            lemma_name_round_trip(buf, q0 + 2, host);
        },
        RecordView::TXT { text, .. } => {
            encode_utf8_valid_utf8(text);
            encode_utf8_decode_utf8(text);
        },
        RecordView::AAAA { addr, .. } => {
            lemma_u128_at(buf, q0, addr);
        },
        RecordView::SRV { priority, weight, port, target, .. } => {
            lemma_sub_concat(
                buf,
                q0,
                be16(priority) + be16(weight) + be16(port),
                text_name_wire(target),
            );
            lemma_sub_concat(buf, q0, be16(priority) + be16(weight), be16(port));
            lemma_sub_concat(buf, q0, be16(priority), be16(weight));
            lemma_u16_at(buf, q0, priority);
            lemma_u16_at(buf, q0 + 2, weight);
            lemma_u16_at(buf, q0 + 4, port);
            lemma_name_round_trip(buf, q0 + 6, target);
        },
        _ => {},
    }
}

/// A well-formed record written at `p`, within the buffer,
/// is read back as itself, with the cursor just past it.
pub proof fn lemma_record_round_trip(buf: Seq<u8>, p: int, r: RecordView)
    requires
        buf.len() == BUFFER_SIZE,
        0 <= p,
        well_formed_record(r),
        p + record_wire(r).len() <= BUFFER_SIZE,
        buf.subrange(p, p + record_wire(r).len()) == record_wire(r),
    ensures
        writable_record(r),
        parse_record(buf, p) == Ok::<(RecordView, int), PacketBufferError>(
            (r, p + record_wire(r).len()),
        ),
{
    lemma_record_head(buf, p, r);
    let q0 = p + text_name_wire(record_domain(r)).len() + 10;
    if r is SOA {
        lemma_soa_round_trip(buf, q0, r);
    } else {
        lemma_rdata_round_trip(buf, q0, r);
    }
}

} // verus!

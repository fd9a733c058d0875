use crate::dns::buffer::{
    fits, lemma_sub_concat, spliced, PacketBuffer, PacketBufferError,
    BUFFER_SIZE,
};
use crate::dns::header::{
    encode_header, flags_fit, header_at, header_wire, lemma_header_round_trip,
    DnsHeader,
};
use crate::dns::name::append_bytes;
use crate::dns::query::DnsQueryType;
use crate::dns::question::{
    encode_question, lemma_question_round_trip, parse_question, question_wire,
    well_formed_question, writable_question, DnsQuestion, QuestionView,
};
use crate::dns::record::{
    encode_record, lemma_record_round_trip, parse_record, record_matches, record_wire,
    well_formed_record, writable_record, DnsRecord, RecordView,
};
use vstd::prelude::*;
use vstd::utf8::*;

verus! {

/// An IP address: IPv4 as its 32-bit value, IPv6 as its 128-bit value.
#[derive(Copy, Clone, PartialEq, Eq, Debug, Structural)]
pub enum IpAddress {
    V4(u32),
    V6(u128),
}

/// A message as values.
pub struct PacketView {
    pub header: DnsHeader,
    pub questions: Seq<QuestionView>,
    pub answers: Seq<RecordView>,
    pub authorities: Seq<RecordView>,
    pub additional: Seq<RecordView>,
}

/// A whole message: the header, then the question, answer, authority and
/// additional sections in order.
#[derive(Debug)]
pub struct DnsPacket {
    pub header: DnsHeader,
    pub questions: Vec<DnsQuestion>,
    pub answers: Vec<DnsRecord>,
    pub authorities: Vec<DnsRecord>,
    pub additional: Vec<DnsRecord>,
}

/// The views of a list of questions.
pub open spec fn question_views(v: Seq<DnsQuestion>) -> Seq<QuestionView> {
    v.map_values(|q: DnsQuestion| q@)
}

/// The views of a list of records.
pub open spec fn record_views(v: Seq<DnsRecord>) -> Seq<RecordView> {
    v.map_values(|r: DnsRecord| r@)
}

impl View for DnsPacket {
    type V = PacketView;

    open spec fn view(&self) -> PacketView {
        PacketView {
            header: self.header,
            questions: question_views(self.questions@),
            answers: record_views(self.answers@),
            authorities: record_views(self.authorities@),
            additional: record_views(self.additional@),
        }
    }
}

/// What reading `n` questions in a row at `pos` gives.
pub open spec fn parse_questions(buf: Seq<u8>, pos: int, n: nat) -> Result<
    (Seq<QuestionView>, int),
    PacketBufferError,
>
    decreases n,
{
    if n == 0 {
        Ok((Seq::empty(), pos))
    } else {
        match parse_question(buf, pos) {
            Err(e) => Err(e),
            Ok((q, c)) => match parse_questions(buf, c, (n - 1) as nat) {
                Err(e) => Err(e),
                Ok((qs, end)) => Ok((seq![q] + qs, end)),
            },
        }
    }
}

/// What reading `n` records in a row at `pos` gives.
pub open spec fn parse_records(buf: Seq<u8>, pos: int, n: nat) -> Result<
    (Seq<RecordView>, int),
    PacketBufferError,
>
    decreases n,
{
    if n == 0 {
        Ok((Seq::empty(), pos))
    } else {
        match parse_record(buf, pos) {
            Err(e) => Err(e),
            Ok((r, c)) => match parse_records(buf, c, (n - 1) as nat) {
                Err(e) => Err(e),
                Ok((rs, end)) => Ok((seq![r] + rs, end)),
            },
        }
    }
}

/// What reading a message at `pos` of `buf` gives: the header, then as many
/// entries of each section as the header counts, or the first error.
pub open spec fn parse_packet(buf: Seq<u8>, pos: int) -> Result<(PacketView, int), PacketBufferError> {
    if !fits(pos, 12) {
        Err(PacketBufferError::EndOfBuffer)
    } else {
        let h = header_at(buf, pos);
        match parse_questions(buf, pos + 12, h.question_count as nat) {
            Err(e) => Err(e),
            Ok((qs, c1)) => match parse_records(buf, c1, h.answer_count as nat) {
                Err(e) => Err(e),
                Ok((ans, c2)) => match parse_records(buf, c2, h.authority_count as nat) {
                    Err(e) => Err(e),
                    Ok((auth, c3)) => match parse_records(buf, c3, h.additional_count as nat) {
                        Err(e) => Err(e),
                        Ok((add, c4)) => Ok(
                            (
                                PacketView {
                                    header: h,
                                    questions: qs,
                                    answers: ans,
                                    authorities: auth,
                                    additional: add,
                                },
                                c4,
                            ),
                        ),
                    },
                },
            },
        }
    }
}

/// The wire forms of questions, one after another.
pub open spec fn questions_wire(qs: Seq<QuestionView>) -> Seq<u8>
    decreases qs.len(),
{
    if qs.len() == 0 {
        Seq::empty()
    } else {
        questions_wire(qs.drop_last()) + question_wire(qs.last())
    }
}

/// The wire forms of records, one after another.
pub open spec fn records_wire(rs: Seq<RecordView>) -> Seq<u8>
    decreases rs.len(),
{
    if rs.len() == 0 {
        Seq::empty()
    } else {
        records_wire(rs.drop_last()) + record_wire(rs.last())
    }
}

/// Whether every question in a list can be written.
pub open spec fn writable_questions(qs: Seq<QuestionView>) -> bool {
    forall|i: int| 0 <= i < qs.len() ==> #[trigger] writable_question(qs[i])
}

/// Whether every record in a list can be written.
pub open spec fn writable_records(rs: Seq<RecordView>) -> bool {
    forall|i: int| 0 <= i < rs.len() ==> #[trigger] writable_record(rs[i])
}

/// Whether every name in a message can be written.
pub open spec fn writable_packet(p: PacketView) -> bool {
    &&& writable_questions(p.questions)
    &&& writable_records(p.answers)
    &&& writable_records(p.authorities)
    &&& writable_records(p.additional)
}

/// Whether each section of a message can be counted in 16 bits.
pub open spec fn counts_fit(p: PacketView) -> bool {
    &&& p.questions.len() <= 0xFFFF
    &&& p.answers.len() <= 0xFFFF
    &&& p.authorities.len() <= 0xFFFF
    &&& p.additional.len() <= 0xFFFF
}

/// The header of `p` with its four counts set to the sizes of its sections.
pub open spec fn counted_header(p: PacketView) -> DnsHeader {
    DnsHeader {
        question_count: p.questions.len() as u16,
        answer_count: p.answers.len() as u16,
        authority_count: p.authorities.len() as u16,
        additional_count: p.additional.len() as u16,
        ..p.header
    }
}

/// The wire form of a message whose names can be written.
pub open spec fn packet_wire(p: PacketView) -> Seq<u8> {
    header_wire(counted_header(p)) + questions_wire(p.questions) + records_wire(p.answers)
        + records_wire(p.authorities) + records_wire(p.additional)
}

/// Whether `name` lies in the zone `zone`, both given by their bytes: the
/// zone is the root (empty), or the name equals it, or the name ends with a
/// dot followed by it.
pub open spec fn in_zone(name: Seq<u8>, zone: Seq<u8>) -> bool {
    ||| zone.len() == 0
    ||| name == zone
    ||| (name.len() > zone.len() && name.subrange(name.len() - zone.len(), name.len() as int)
        == zone && name[name.len() - zone.len() - 1] == crate::dns::name::DOT)
}

/// The (zone, host) pairs of the NS records among `auth` whose zone holds
/// `name`, in section order.
pub open spec fn nameservers_for(auth: Seq<RecordView>, name: Seq<char>) -> Seq<
    (Seq<char>, Seq<char>),
>
    decreases auth.len(),
{
    if auth.len() == 0 {
        Seq::empty()
    } else {
        let rest = nameservers_for(auth.drop_last(), name);
        match auth.last() {
            RecordView::NS { domain, host, .. } => if in_zone(
                encode_utf8(name),
                encode_utf8(domain),
            ) {
                rest.push((domain, host))
            } else {
                rest
            },
            _ => rest,
        }
    }
}

/// The address of the first record among `additional` that is a glue record
/// for `host` of the kind `t`: an A record when `t` is A, an AAAA record when
/// `t` is AAAA.
pub open spec fn glue_for(additional: Seq<RecordView>, host: Seq<char>, t: DnsQueryType) -> Option<
    IpAddress,
>
    decreases additional.len(),
{
    if additional.len() == 0 {
        None
    } else {
        match additional[0] {
            RecordView::A { domain, addr, .. } => if domain == host && t == DnsQueryType::A {
                Some(IpAddress::V4(addr))
            } else {
                glue_for(additional.drop_first(), host, t)
            },
            RecordView::AAAA { domain, addr, .. } => if domain == host && t
                == DnsQueryType::AAAA {
                Some(IpAddress::V6(addr))
            } else {
                glue_for(additional.drop_first(), host, t)
            },
            _ => glue_for(additional.drop_first(), host, t),
        }
    }
}

/// The first glue address for any of the given name servers, trying them in
/// order.
pub open spec fn first_glue(
    servers: Seq<(Seq<char>, Seq<char>)>,
    additional: Seq<RecordView>,
    t: DnsQueryType,
) -> Option<IpAddress>
    decreases servers.len(),
{
    if servers.len() == 0 {
        None
    } else {
        match glue_for(additional, servers[0].1, t) {
            Some(a) => Some(a),
            None => first_glue(servers.drop_first(), additional, t),
        }
    }
}

/// The first record among `rs` of the kind `t`.
pub open spec fn first_of_kind(rs: Seq<RecordView>, t: DnsQueryType) -> Option<RecordView>
    decreases rs.len(),
{
    if rs.len() == 0 {
        None
    } else if record_matches(rs[0], t) {
        Some(rs[0])
    } else {
        first_of_kind(rs.drop_first(), t)
    }
}

/// The address that a record holds, if it is an A or AAAA record.
pub open spec fn address_of(r: RecordView) -> Option<IpAddress> {
    match r {
        RecordView::A { addr, .. } => Some(IpAddress::V4(addr)),
        RecordView::AAAA { addr, .. } => Some(IpAddress::V6(addr)),
        _ => None,
    }
}

/// The address in the first answer of the kind `t`, if that answer is an A
/// or AAAA record.
pub open spec fn answer_address(p: PacketView, t: DnsQueryType) -> Option<IpAddress> {
    match first_of_kind(p.answers, t) {
        Some(r) => address_of(r),
        None => None,
    }
}

/// Whether the bytes `name` lie in the zone `zone`.
pub fn name_in_zone(name: &[u8], zone: &[u8]) -> (r: bool)
    ensures
        r == in_zone(name@, zone@),
{
    let n = name.len();
    let z = zone.len();
    if z == 0 {
        return true;
    }
    if n < z {
        assert(name@ != zone@);
        return false;
    }
    let off = n - z;
    let mut i: usize = 0;
    while i < z
        invariant
            0 <= i <= z,
            z == zone@.len(),
            n == name@.len(),
            off == n - z,
            forall|k: int| 0 <= k < i ==> name@[off + k] == #[trigger] zone@[k],
        decreases z - i,
    {
        if name[off + i] != zone[i] {
            assert(name@.subrange(off as int, n as int)[i as int] != zone@[i as int]);
            assert(name@ != zone@ ==> true);
            if n == z {
                assert(name@[i as int] != zone@[i as int]);
            }
            return false;
        }
        i = i + 1;
    }
    assert(name@.subrange(off as int, n as int) =~= zone@);
    if n == z {
        assert(name@ =~= zone@);
        return true;
    }
    name[off - 1] == crate::dns::name::DOT
}

impl DnsPacket {
    /// An empty message with a zeroed header.
    pub fn new() -> (r: Self)
        ensures
            r@ == (PacketView {
                header: DnsHeader::spec_new(),
                questions: Seq::empty(),
                answers: Seq::empty(),
                authorities: Seq::empty(),
                additional: Seq::empty(),
            }),
    {
        let r = Self {
            header: DnsHeader::new(),
            questions: Vec::new(),
            answers: Vec::new(),
            authorities: Vec::new(),
            additional: Vec::new(),
        };
        assert(r@.questions =~= Seq::<QuestionView>::empty());
        assert(r@.answers =~= Seq::<RecordView>::empty());
        assert(r@.authorities =~= Seq::<RecordView>::empty());
        assert(r@.additional =~= Seq::<RecordView>::empty());
        r
    }

    /// Reads a message at the cursor: the header, then exactly as many
    /// entries of each section as the header counts, stopping at the first
    /// failure.
    pub fn read(buffer: &mut PacketBuffer) -> (r: Result<Self, PacketBufferError>)
        ensures
            old(buffer).pos <= BUFFER_SIZE ==> final(buffer).pos <= BUFFER_SIZE,
            final(buffer).buffer == old(buffer).buffer,
            match parse_packet(old(buffer).bytes(), old(buffer).pos as int) {
                Ok((p, c)) => r is Ok && r->Ok_0@ == p && final(buffer).pos == c,
                Err(e) => r == Err::<Self, _>(e),
            },
    {
        let header = DnsHeader::read(buffer)?;
        let questions = read_questions(buffer, header.question_count)?;
        let answers = read_records(buffer, header.answer_count)?;
        let authorities = read_records(buffer, header.authority_count)?;
        let additional = read_records(buffer, header.additional_count)?;
        Ok(DnsPacket { header, questions, answers, authorities, additional })
    }

    /// Writes the message at the cursor, with the header's counts set to the
    /// sizes of the sections. A name that cannot be written, or a message that
    /// does not fit, fails and leaves the buffer as it was.
    pub fn write(&self, buffer: &mut PacketBuffer) -> (r: Result<(), PacketBufferError>)
        ensures
            old(buffer).pos <= BUFFER_SIZE ==> final(buffer).pos <= BUFFER_SIZE,
            !counts_fit(self@) ==> r == Err::<(), _>(PacketBufferError::EndOfBuffer) && *final(buffer) == *old(buffer),
            counts_fit(self@) && !writable_packet(self@) ==> r == Err::<(), _>(
                PacketBufferError::InvalidLabelLength,
            ) && *final(buffer) == *old(buffer),
            counts_fit(self@) && writable_packet(self@) && fits(
                old(buffer).pos as int,
                packet_wire(self@).len() as int,
            ) ==> r is Ok && final(buffer).pos == old(buffer).pos + packet_wire(self@).len()
                && final(buffer).bytes() == spliced(
                old(buffer).bytes(),
                old(buffer).pos as int,
                packet_wire(self@),
            ),
            counts_fit(self@) && writable_packet(self@) && !fits(
                old(buffer).pos as int,
                packet_wire(self@).len() as int,
            ) ==> r == Err::<(), _>(PacketBufferError::EndOfBuffer) && *final(buffer) == *old(buffer),
    {
        match encode_packet(self) {
            Ok(w) => buffer.write_bytes(w.as_slice()),
            Err(e) => Err(e),
        }
    }

    /// The (zone, host) pairs of the NS records in the authority section
    /// whose zone holds `query_name`, in section order.
    pub fn get_nameservers(&self, query_name: &str) -> (r: Vec<(String, String)>)
        ensures
            r@.map_values(|p: (String, String)| (p.0@, p.1@)) == nameservers_for(
                self@.authorities,
                query_name@,
            ),
    {
        let mut out: Vec<(String, String)> = Vec::new();
        let ghost auth = self@.authorities;
        let mut i: usize = 0;
        let name_bytes = query_name.as_bytes();
        assert(auth.subrange(0, 0) =~= Seq::<RecordView>::empty());
        while i < self.authorities.len()
            invariant
                0 <= i <= self.authorities@.len(),
                auth == self@.authorities,
                name_bytes@ == encode_utf8(query_name@),
                out@.map_values(|p: (String, String)| (p.0@, p.1@)) == nameservers_for(
                    auth.subrange(0, i as int),
                    query_name@,
                ),
            decreases self.authorities@.len() - i,
        {
            let ghost prev = auth.subrange(0, i as int);
            assert(auth.subrange(0, i + 1).drop_last() =~= prev);
            let rec = &self.authorities[i];
            assert(auth.subrange(0, i + 1).last() == rec@);
            match rec {
                DnsRecord::NS { domain, host, .. } => {
                    if name_in_zone(name_bytes, domain.as_str().as_bytes()) {
                        out.push((domain.clone(), host.clone()));
                        assert(out@.map_values(|p: (String, String)| (p.0@, p.1@))
                            =~= nameservers_for(prev, query_name@).push((domain@, host@)));
                    }
                },
                _ => {},
            }
            i = i + 1;
        }
        assert(auth.subrange(0, auth.len() as int) =~= auth);
        out
    }

    /// The address of a glue record in the additional section for one of the
    /// name servers that `get_nameservers` gives, of the kind `query_type`:
    /// the first such server in order, and for it the first such record.
    pub fn get_resolved_nameserver(&self, query_name: &str, query_type: DnsQueryType) -> (r:
        Option<IpAddress>)
        ensures
            r == first_glue(
                nameservers_for(self@.authorities, query_name@),
                self@.additional,
                query_type,
            ),
    {
        let servers = self.get_nameservers(query_name);
        let ghost sv = servers@.map_values(|p: (String, String)| (p.0@, p.1@));
        let mut i: usize = 0;
        assert(sv.subrange(0, sv.len() as int) =~= sv);
        while i < servers.len()
            invariant
                0 <= i <= servers@.len(),
                sv == servers@.map_values(|p: (String, String)| (p.0@, p.1@)),
                sv == nameservers_for(self@.authorities, query_name@),
                first_glue(sv, self@.additional, query_type) == first_glue(
                    sv.subrange(i as int, sv.len() as int),
                    self@.additional,
                    query_type,
                ),
            decreases servers@.len() - i,
        {
            let ghost rest = sv.subrange(i as int, sv.len() as int);
            assert(rest.drop_first() =~= sv.subrange(i + 1, sv.len() as int));
            assert(rest[0] == (servers@[i as int].0@, servers@[i as int].1@));
            let found = glue_address(&self.additional, &servers[i].1, query_type);
            if found.is_some() {
                return found;
            }
            i = i + 1;
        }
        None
    }

    /// The host of the first name server that `get_nameservers` gives.
    pub fn get_uresolved_nameserver(&self, query_name: &str) -> (r: Option<String>)
        ensures
            nameservers_for(self@.authorities, query_name@).len() == 0 ==> r is None,
            nameservers_for(self@.authorities, query_name@).len() > 0 ==> r is Some && r->0@
                == nameservers_for(self@.authorities, query_name@)[0].1,
    {
        let servers = self.get_nameservers(query_name);
        if servers.len() == 0 {
            None
        } else {
            Some(servers[0].1.clone())
        }
    }

    /// The address held by the first answer of the kind `query_type`, if that
    /// answer is an A or AAAA record.
    pub fn get_record(&self, query_type: DnsQueryType) -> (r: Option<IpAddress>)
        ensures
            r == answer_address(self@, query_type),
    {
        let ghost ans = self@.answers;
        let mut i: usize = 0;
        assert(ans.subrange(0, ans.len() as int) =~= ans);
        while i < self.answers.len()
            invariant
                0 <= i <= self.answers@.len(),
                ans == self@.answers,
                first_of_kind(ans, query_type) == first_of_kind(
                    ans.subrange(i as int, ans.len() as int),
                    query_type,
                ),
            decreases self.answers@.len() - i,
        {
            let ghost rest = ans.subrange(i as int, ans.len() as int);
            assert(rest.drop_first() =~= ans.subrange(i + 1, ans.len() as int));
            let rec = &self.answers[i];
            assert(rest[0] == rec@);
            if rec.matches_query_type(query_type) {
                return match rec {
                    DnsRecord::A { addr, .. } => Some(IpAddress::V4(*addr)),
                    DnsRecord::AAAA { addr, .. } => Some(IpAddress::V6(*addr)),
                    _ => None,
                };
            }
            i = i + 1;
        }
        None
    }
}

/// The address of the first glue record among `additional` for `host`, of
/// the kind `t`.
fn glue_address(additional: &Vec<DnsRecord>, host: &String, t: DnsQueryType) -> (r: Option<
    IpAddress,
>)
    ensures
        r == glue_for(record_views(additional@), host@, t),
{
    let ghost add = record_views(additional@);
    let mut i: usize = 0;
    assert(add.subrange(0, add.len() as int) =~= add);
    while i < additional.len()
        invariant
            0 <= i <= additional@.len(),
            add == record_views(additional@),
            glue_for(add, host@, t) == glue_for(add.subrange(i as int, add.len() as int), host@, t),
        decreases additional@.len() - i,
    {
        let ghost rest = add.subrange(i as int, add.len() as int);
        assert(rest.drop_first() =~= add.subrange(i + 1, add.len() as int));
        let rec = &additional[i];
        assert(rest[0] == rec@);
        match rec {
            DnsRecord::A { domain, addr, .. } => {
                if *domain == *host && t == DnsQueryType::A {
                    return Some(IpAddress::V4(*addr));
                }
            },
            DnsRecord::AAAA { domain, addr, .. } => {
                if *domain == *host && t == DnsQueryType::AAAA {
                    return Some(IpAddress::V6(*addr));
                }
            },
            _ => {},
        }
        i = i + 1;
    }
    None
}

/// `r` with `xs` put in front of the entries it read.
pub open spec fn prepend_entries<T>(xs: Seq<T>, r: Result<(Seq<T>, int), PacketBufferError>) -> Result<
    (Seq<T>, int),
    PacketBufferError,
> {
    match r {
        Ok((ys, c)) => Ok((xs + ys, c)),
        Err(e) => Err(e),
    }
}

/// Reads `n` questions in a row at the cursor.
fn read_questions(buffer: &mut PacketBuffer, n: u16) -> (r: Result<Vec<DnsQuestion>, PacketBufferError>)
    ensures
        old(buffer).pos <= BUFFER_SIZE ==> final(buffer).pos <= BUFFER_SIZE,
        final(buffer).buffer == old(buffer).buffer,
        match parse_questions(old(buffer).bytes(), old(buffer).pos as int, n as nat) {
            Ok((qs, c)) => r is Ok && question_views(r->Ok_0@) == qs && final(buffer).pos == c,
            Err(e) => r == Err::<Vec<DnsQuestion>, _>(e),
        },
{
    let ghost buf = buffer.bytes();
    let ghost start = buffer.pos as int;
    let mut out: Vec<DnsQuestion> = Vec::new();
    let mut k: u16 = 0;
    proof {
        match parse_questions(buf, start, n as nat) {
            Ok((qs, c)) => {
                assert(question_views(out@) + qs =~= qs);
            },
            Err(e) => {},
        }
    }
    while k < n
        invariant
            0 <= k <= n,
            buffer.buffer == old(buffer).buffer,
            buf == old(buffer).bytes(),
            start == old(buffer).pos,
            old(buffer).pos <= BUFFER_SIZE ==> buffer.pos <= BUFFER_SIZE,
            parse_questions(buf, start, n as nat) == prepend_entries(
                question_views(out@),
                parse_questions(buf, buffer.pos as int, (n - k) as nat),
            ),
        decreases n - k,
    {
        let ghost p = buffer.pos as int;
        let ghost before = question_views(out@);
        let q = DnsQuestion::read(buffer)?;
        out.push(q);
        proof {
            let after = question_views(out@);
            assert(after =~= before.push(q@));
            match parse_questions(buf, buffer.pos as int, (n - k - 1) as nat) {
                Ok((qs, c)) => {
                    assert(before + (seq![q@] + qs) =~= after + qs);
                },
                Err(e) => {},
            }
        }
        k = k + 1;
    }
    proof {
        assert(question_views(out@) + Seq::<QuestionView>::empty() =~= question_views(out@));
    }
    Ok(out)
}

/// Reads `n` records in a row at the cursor.
fn read_records(buffer: &mut PacketBuffer, n: u16) -> (r: Result<Vec<DnsRecord>, PacketBufferError>)
    ensures
        old(buffer).pos <= BUFFER_SIZE ==> final(buffer).pos <= BUFFER_SIZE,
        final(buffer).buffer == old(buffer).buffer,
        match parse_records(old(buffer).bytes(), old(buffer).pos as int, n as nat) {
            Ok((rs, c)) => r is Ok && record_views(r->Ok_0@) == rs && final(buffer).pos == c,
            Err(e) => r == Err::<Vec<DnsRecord>, _>(e),
        },
{
    let ghost buf = buffer.bytes();
    let ghost start = buffer.pos as int;
    let mut out: Vec<DnsRecord> = Vec::new();
    let mut k: u16 = 0;
    proof {
        match parse_records(buf, start, n as nat) {
            Ok((rs, c)) => {
                assert(record_views(out@) + rs =~= rs);
            },
            Err(e) => {},
        }
    }
    while k < n
        invariant
            0 <= k <= n,
            buffer.buffer == old(buffer).buffer,
            buf == old(buffer).bytes(),
            start == old(buffer).pos,
            old(buffer).pos <= BUFFER_SIZE ==> buffer.pos <= BUFFER_SIZE,
            parse_records(buf, start, n as nat) == prepend_entries(
                record_views(out@),
                parse_records(buf, buffer.pos as int, (n - k) as nat),
            ),
        decreases n - k,
    {
        let ghost before = record_views(out@);
        let rec = DnsRecord::read(buffer)?;
        out.push(rec);
        proof {
            let after = record_views(out@);
            assert(after =~= before.push(rec@));
            match parse_records(buf, buffer.pos as int, (n - k - 1) as nat) {
                Ok((rs, c)) => {
                    assert(before + (seq![rec@] + rs) =~= after + rs);
                },
                Err(e) => {},
            }
        }
        k = k + 1;
    }
    proof {
        assert(record_views(out@) + Seq::<RecordView>::empty() =~= record_views(out@));
    }
    Ok(out)
}

/// Appends the wire forms of `qs`, or fails on the first one that cannot be
/// written.
fn encode_questions(out: &mut Vec<u8>, qs: &Vec<DnsQuestion>) -> (r: Result<(), PacketBufferError>)
    ensures
        writable_questions(question_views(qs@)) ==> r is Ok && final(out)@ == old(out)@
            + questions_wire(question_views(qs@)),
        !writable_questions(question_views(qs@)) ==> r == Err::<(), _>(
            PacketBufferError::InvalidLabelLength,
        ),
{
    let ghost v = question_views(qs@);
    let mut i: usize = 0;
    assert(v.subrange(0, 0) =~= Seq::<QuestionView>::empty());
    while i < qs.len()
        invariant
            0 <= i <= qs@.len(),
            v == question_views(qs@),
            forall|k: int| 0 <= k < i ==> #[trigger] writable_question(v[k]),
            out@ == old(out)@ + questions_wire(v.subrange(0, i as int)),
        decreases qs@.len() - i,
    {
        assert(v[i as int] == qs@[i as int]@);
        match encode_question(&qs[i]) {
            Ok(w) => {
                assert(v.subrange(0, i + 1).drop_last() =~= v.subrange(0, i as int));
                append_bytes(out, w.as_slice());
                assert(out@ =~= old(out)@ + questions_wire(v.subrange(0, i + 1)));
            },
            Err(e) => {
                return Err(e);
            },
        }
        i = i + 1;
    }
    assert(v.subrange(0, v.len() as int) =~= v);
    Ok(())
}

/// Appends the wire forms of `rs`, or fails on the first one that cannot be
/// written.
fn encode_records(out: &mut Vec<u8>, rs: &Vec<DnsRecord>) -> (r: Result<(), PacketBufferError>)
    ensures
        writable_records(record_views(rs@)) ==> r is Ok && final(out)@ == old(out)@ + records_wire(
            record_views(rs@),
        ),
        !writable_records(record_views(rs@)) ==> r == Err::<(), _>(
            PacketBufferError::InvalidLabelLength,
        ),
{
    let ghost v = record_views(rs@);
    let mut i: usize = 0;
    assert(v.subrange(0, 0) =~= Seq::<RecordView>::empty());
    while i < rs.len()
        invariant
            0 <= i <= rs@.len(),
            v == record_views(rs@),
            forall|k: int| 0 <= k < i ==> #[trigger] writable_record(v[k]),
            out@ == old(out)@ + records_wire(v.subrange(0, i as int)),
        decreases rs@.len() - i,
    {
        assert(v[i as int] == rs@[i as int]@);
        match encode_record(&rs[i]) {
            Ok(w) => {
                assert(v.subrange(0, i + 1).drop_last() =~= v.subrange(0, i as int));
                append_bytes(out, w.as_slice());
                assert(out@ =~= old(out)@ + records_wire(v.subrange(0, i + 1)));
            },
            Err(e) => {
                return Err(e);
            },
        }
        i = i + 1;
    }
    assert(v.subrange(0, v.len() as int) =~= v);
    Ok(())
}

/// The wire form of a message, with its counts set to the sizes of its
/// sections, or the error that stops it from being written.
#[verifier::rlimit(40)]
pub fn encode_packet(p: &DnsPacket) -> (r: Result<Vec<u8>, PacketBufferError>)
    ensures
        !counts_fit(p@) ==> r == Err::<Vec<u8>, _>(PacketBufferError::EndOfBuffer),
        counts_fit(p@) && !writable_packet(p@) ==> r == Err::<Vec<u8>, _>(
            PacketBufferError::InvalidLabelLength,
        ),
        counts_fit(p@) && writable_packet(p@) ==> r is Ok && r->Ok_0@ == packet_wire(p@),
{
    if p.questions.len() > 0xFFFF || p.answers.len() > 0xFFFF || p.authorities.len() > 0xFFFF
        || p.additional.len() > 0xFFFF {
        return Err(PacketBufferError::EndOfBuffer);
    }
    let mut header = p.header;
    header.question_count = p.questions.len() as u16;
    header.answer_count = p.answers.len() as u16;
    header.authority_count = p.authorities.len() as u16;
    header.additional_count = p.additional.len() as u16;
    assert(header == counted_header(p@));
    let mut body: Vec<u8> = Vec::new();
    encode_questions(&mut body, &p.questions)?;
    encode_records(&mut body, &p.answers)?;
    encode_records(&mut body, &p.authorities)?;
    encode_records(&mut body, &p.additional)?;
    let mut out = encode_header(&header);
    append_bytes(&mut out, body.as_slice());
    assert(out@ =~= packet_wire(p@));
    Ok(out)
}


/// The wire forms of questions read from the front.
proof fn lemma_questions_wire_front(qs: Seq<QuestionView>)
    requires
        qs.len() > 0,
    ensures
        questions_wire(qs) == question_wire(qs[0]) + questions_wire(qs.drop_first()),
    decreases qs.len(),
{
    if qs.len() == 1 {
        assert(qs.drop_last() =~= Seq::<QuestionView>::empty());
        assert(qs.drop_first() =~= Seq::<QuestionView>::empty());
        assert(questions_wire(qs) =~= question_wire(qs[0]) + questions_wire(qs.drop_first()));
    } else {
        lemma_questions_wire_front(qs.drop_last());
        assert(qs.drop_last().drop_first() =~= qs.drop_first().drop_last());
        assert(questions_wire(qs) =~= question_wire(qs[0]) + questions_wire(qs.drop_first()));
    }
}

/// The wire forms of records read from the front.
proof fn lemma_records_wire_front(rs: Seq<RecordView>)
    requires
        rs.len() > 0,
    ensures
        records_wire(rs) == record_wire(rs[0]) + records_wire(rs.drop_first()),
    decreases rs.len(),
{
    if rs.len() == 1 {
        assert(rs.drop_last() =~= Seq::<RecordView>::empty());
        assert(rs.drop_first() =~= Seq::<RecordView>::empty());
        assert(records_wire(rs) =~= record_wire(rs[0]) + records_wire(rs.drop_first()));
    } else {
        lemma_records_wire_front(rs.drop_last());
        assert(rs.drop_last().drop_first() =~= rs.drop_first().drop_last());
        assert(records_wire(rs) =~= record_wire(rs[0]) + records_wire(rs.drop_first()));
    }
}

/// Whether every question in a list comes back unchanged from its wire form.
pub open spec fn well_formed_questions(qs: Seq<QuestionView>) -> bool {
    forall|i: int| 0 <= i < qs.len() ==> #[trigger] well_formed_question(qs[i])
}

/// Whether every record in a list comes back unchanged from its wire form.
pub open spec fn well_formed_records(rs: Seq<RecordView>) -> bool {
    forall|i: int| 0 <= i < rs.len() ==> #[trigger] well_formed_record(rs[i])
}

/// Questions written one after another are read back as themselves.
proof fn lemma_questions_round_trip(buf: Seq<u8>, p: int, qs: Seq<QuestionView>)
    requires
        buf.len() == BUFFER_SIZE,
        0 <= p,
        well_formed_questions(qs),
        p + questions_wire(qs).len() <= BUFFER_SIZE,
        buf.subrange(p, p + questions_wire(qs).len()) == questions_wire(qs),
    ensures
        writable_questions(qs),
        parse_questions(buf, p, qs.len()) == Ok::<(Seq<QuestionView>, int), PacketBufferError>(
            (qs, p + questions_wire(qs).len()),
        ),
    decreases qs.len(),
{
    if qs.len() == 0 {
        assert(qs =~= Seq::<QuestionView>::empty());
    } else {
        lemma_questions_wire_front(qs);
        let w0 = question_wire(qs[0]);
        let rest = qs.drop_first();
        lemma_sub_concat(buf, p, w0, questions_wire(rest));
        assert(well_formed_question(qs[0]));
        lemma_question_round_trip(buf, p, qs[0]);
        assert(well_formed_questions(rest)) by {
            assert forall|i: int| 0 <= i < rest.len() implies #[trigger] well_formed_question(
                rest[i],
            ) by {
                assert(rest[i] == qs[i + 1]);
            }
        }
        lemma_questions_round_trip(buf, p + w0.len(), rest);
        assert(seq![qs[0]] + rest =~= qs);
        assert forall|i: int| 0 <= i < qs.len() implies #[trigger] writable_question(qs[i]) by {
            if i > 0 {
                assert(qs[i] == rest[i - 1]);
            }
        }
    }
}

/// Records written one after another, within the buffer,
/// are read back as themselves.
proof fn lemma_records_round_trip(buf: Seq<u8>, p: int, rs: Seq<RecordView>)
    requires
        buf.len() == BUFFER_SIZE,
        0 <= p,
        well_formed_records(rs),
        p + records_wire(rs).len() <= BUFFER_SIZE,
        buf.subrange(p, p + records_wire(rs).len()) == records_wire(rs),
    ensures
        writable_records(rs),
        parse_records(buf, p, rs.len()) == Ok::<(Seq<RecordView>, int), PacketBufferError>(
            (rs, p + records_wire(rs).len()),
        ),
    decreases rs.len(),
{
    if rs.len() == 0 {
        assert(rs =~= Seq::<RecordView>::empty());
    } else {
        lemma_records_wire_front(rs);
        let w0 = record_wire(rs[0]);
        let rest = rs.drop_first();
        lemma_sub_concat(buf, p, w0, records_wire(rest));
        assert(well_formed_record(rs[0]));
        lemma_record_round_trip(buf, p, rs[0]);
        assert(well_formed_records(rest)) by {
            assert forall|i: int| 0 <= i < rest.len() implies #[trigger] well_formed_record(
                rest[i],
            ) by {
                assert(rest[i] == rs[i + 1]);
            }
        }
        lemma_records_round_trip(buf, p + w0.len(), rest);
        assert(seq![rs[0]] + rest =~= rs);
        assert forall|i: int| 0 <= i < rs.len() implies #[trigger] writable_record(rs[i]) by {
            if i > 0 {
                assert(rs[i] == rest[i - 1]);
            }
        }
    }
}

/// Whether a message comes back unchanged from its wire form: its flag
/// fields fit their widths, its sections can be counted, and every entry is
/// well-formed.
pub open spec fn well_formed_packet(m: PacketView) -> bool {
    &&& flags_fit(m.header)
    &&& counts_fit(m)
    &&& well_formed_questions(m.questions)
    &&& well_formed_records(m.answers)
    &&& well_formed_records(m.authorities)
    &&& well_formed_records(m.additional)
}

/// A well-formed message, written at `p` within the buffer, is read back with the same header (its counts being the sizes of
/// the sections) and the same entries in every section.
#[verifier::spinoff_prover]
pub proof fn lemma_packet_round_trip(buf: Seq<u8>, p: int, m: PacketView)
    requires
        buf.len() == BUFFER_SIZE,
        0 <= p,
        well_formed_packet(m),
        p + packet_wire(m).len() <= BUFFER_SIZE,
        buf.subrange(p, p + packet_wire(m).len()) == packet_wire(m),
    ensures
        writable_packet(m),
        parse_packet(buf, p) == Ok::<(PacketView, int), PacketBufferError>(
            (PacketView { header: counted_header(m), ..m }, p + packet_wire(m).len()),
        ),
{
    let h = counted_header(m);
    let hw = header_wire(h);
    let qw = questions_wire(m.questions);
    let aw = records_wire(m.answers);
    let uw = records_wire(m.authorities);
    let dw = records_wire(m.additional);
    lemma_sub_concat(buf, p, hw + qw + aw + uw, dw);
    lemma_sub_concat(buf, p, hw + qw + aw, uw);
    lemma_sub_concat(buf, p, hw + qw, aw);
    lemma_sub_concat(buf, p, hw, qw);
    lemma_header_round_trip(buf, p, h);
    assert(header_at(buf, p) == h);
    lemma_questions_round_trip(buf, p + 12, m.questions);
    lemma_records_round_trip(buf, p + 12 + qw.len(), m.answers);
    lemma_records_round_trip(buf, p + 12 + qw.len() + aw.len(), m.authorities);
    lemma_records_round_trip(buf, p + 12 + qw.len() + aw.len() + uw.len(), m.additional);
}


/// Writing a well-formed message into a buffer and reading it back from the
/// same place gives the same header (its counts being the sizes of the
/// sections) and the same entries, wherever the message fits in the buffer.
pub proof fn lemma_write_then_read(b: Seq<u8>, p: int, m: PacketView)
    requires
        b.len() == BUFFER_SIZE,
        0 <= p,
        well_formed_packet(m),
        p + packet_wire(m).len() <= BUFFER_SIZE,
    ensures
        writable_packet(m),
        parse_packet(spliced(b, p, packet_wire(m)), p) == Ok::<(PacketView, int), PacketBufferError>(
            (PacketView { header: counted_header(m), ..m }, p + packet_wire(m).len()),
        ),
{
    let w = packet_wire(m);
    let buf = spliced(b, p, w);
    assert(buf.subrange(p, p + w.len()) =~= w);
    lemma_packet_round_trip(buf, p, m);
}

} // verus!

use crate::dns::buffer::PacketBufferError;
use crate::dns::header::DnsResponseCode;
use crate::dns::packet::{
    answer_address, first_glue, nameservers_for, DnsPacket, IpAddress, PacketView,
};
use crate::dns::query::DnsQueryType;
use crate::dns::question::DnsQuestion;
use vstd::prelude::*;

verus! {

/// The most exchanges that one resolution may make.
pub const MAX_EXCHANGES: usize = 64;

/// The most resolutions that may be nested inside one another, the outermost
/// included.
pub const MAX_DEPTH: usize = 8;

/// The transaction id of the queries that the resolver sends.
pub const QUERY_ID: u16 = 1234;

/// Why an exchange or a resolution failed.
#[derive(Debug, Clone, Copy, PartialEq, Eq, Structural)]
pub enum LookupError {
    /// The query could not be sent or no answer came back.
    Transport,
    /// The answer could not be decoded.
    Decode(PacketBufferError),
    /// The resolution used up its exchanges or its nesting depth.
    Exhausted,
}

/// The IPv4 address of the root server `a.root-servers.net`, 198.41.0.4.
pub fn root_hint() -> (r: IpAddress)
    ensures
        r == IpAddress::V4(0xC629_0004),
{
    IpAddress::V4(0xC629_0004)
}

/// The IPv4 address of a public recursive resolver, 8.8.8.8.
pub fn public_resolver() -> (r: IpAddress)
    ensures
        r == IpAddress::V4(0x0808_0808),
{
    IpAddress::V4(0x0808_0808)
}

/// The query that asks for records of `query_type` about `name`: id
/// `QUERY_ID`, one question in the Internet class, recursion not desired,
/// every other field zero.
pub fn query_packet(name: String, query_type: DnsQueryType) -> (r: DnsPacket)
    ensures
        r@.header == (crate::dns::header::DnsHeader {
            id: QUERY_ID,
            question_count: 1,
            ..crate::dns::header::DnsHeader::spec_new()
        }),
        r@.questions.len() == 1,
        r@.questions[0].name == name@,
        r@.questions[0].query_type == query_type,
        r@.questions[0].query_class == crate::dns::query::DnsQueryClass::IN,
        r@.answers.len() == 0,
        r@.authorities.len() == 0,
        r@.additional.len() == 0,
{
    let mut packet = DnsPacket::new();
    packet.header.id = QUERY_ID;
    packet.header.question_count = 1;
    let q = DnsQuestion::new(name, query_type);
    let ghost qv = q@;
    packet.questions.push(q);
    assert(packet@.questions =~= seq![qv]);
    packet
}

/// The IPv4 address that a response gives: that of its first A answer, if
/// that answer holds one. Where `require_no_error`, a response whose code is
/// not `NoError` gives none.
pub fn ipv4_answer(response: &DnsPacket, require_no_error: bool) -> (r: Option<u32>)
    ensures
        r == (if require_no_error && response@.header.response_code != DnsResponseCode::NoError {
            None
        } else {
            match answer_address(response@, DnsQueryType::A) {
                Some(IpAddress::V4(a)) => Some(a),
                _ => None,
            }
        }),
{
    if require_no_error && response.header.response_code != DnsResponseCode::NoError {
        return None;
    }
    match response.get_record(DnsQueryType::A) {
        Some(IpAddress::V4(a)) => Some(a),
        _ => None,
    }
}

/// The IPv6 address that a response gives: that of its first AAAA answer, if
/// that answer holds one. Where `require_no_error`, a response whose code is
/// not `NoError` gives none.
pub fn ipv6_answer(response: &DnsPacket, require_no_error: bool) -> (r: Option<u128>)
    ensures
        r == (if require_no_error && response@.header.response_code != DnsResponseCode::NoError {
            None
        } else {
            match answer_address(response@, DnsQueryType::AAAA) {
                Some(IpAddress::V6(a)) => Some(a),
                _ => None,
            }
        }),
{
    if require_no_error && response.header.response_code != DnsResponseCode::NoError {
        return None;
    }
    match response.get_record(DnsQueryType::AAAA) {
        Some(IpAddress::V6(a)) => Some(a),
        _ => None,
    }
}

/// Whether a response ends a resolution: it answers without error, or it
/// says that the name does not exist.
pub open spec fn is_terminal(p: PacketView) -> bool {
    ||| (p.answers.len() > 0 && p.header.response_code == DnsResponseCode::NoError)
    ||| p.header.response_code == DnsResponseCode::NxDomain
}

/// One resolution in progress, as values.
pub struct FrameView {
    pub name: Seq<char>,
    pub query_type: DnsQueryType,
    pub server: IpAddress,
    pub last: Option<PacketView>,
}

/// A resolver's state as values: its resolutions, outermost first, the root
/// server it starts nested resolutions at, and the exchanges made so far.
pub struct ResolverView {
    pub frames: Seq<FrameView>,
    pub root: IpAddress,
    pub exchanges: nat,
}

/// What the resolver asks of its caller, as values.
pub enum ActionView {
    Query { name: Seq<char>, query_type: DnsQueryType, server: IpAddress },
    Done(Result<PacketView, LookupError>),
}

/// One resolution in progress: the name and type asked for, the server to
/// ask next and the last response that came back.
#[derive(Debug)]
pub struct Frame {
    pub name: String,
    pub query_type: DnsQueryType,
    pub server: IpAddress,
    pub last: Option<DnsPacket>,
}

impl View for Frame {
    type V = FrameView;

    open spec fn view(&self) -> FrameView {
        FrameView {
            name: self.name@,
            query_type: self.query_type,
            server: self.server,
            last: match self.last {
                Some(p) => Some(p@),
                None => None,
            },
        }
    }
}

/// What the resolver asks of its caller: send a query to a server on port 53
/// and hand back what came of it, or take the result.
#[derive(Debug)]
pub enum Action {
    Query { name: String, query_type: DnsQueryType, server: IpAddress },
    Done(Result<DnsPacket, LookupError>),
}

impl View for Action {
    type V = ActionView;

    open spec fn view(&self) -> ActionView {
        match self {
            Action::Query { name, query_type, server } => ActionView::Query {
                name: name@,
                query_type: *query_type,
                server: *server,
            },
            Action::Done(Ok(p)) => ActionView::Done(Ok(p@)),
            Action::Done(Err(e)) => ActionView::Done(Err(*e)),
        }
    }
}

/// The view of the outcome of an exchange.
pub open spec fn event_view(ev: Result<DnsPacket, LookupError>) -> Result<PacketView, LookupError> {
    match ev {
        Ok(p) => Ok(p@),
        Err(e) => Err(e),
    }
}

/// Whether every resolution but the innermost has a response: the one that
/// sent it into the nested resolution above it.
pub open spec fn frames_wf(frames: Seq<FrameView>) -> bool {
    forall|i: int| 0 <= i < frames.len() - 1 ==> (#[trigger] frames[i]).last is Some
}

/// Asks the innermost resolution's server, if exchanges are left.
pub open spec fn issue(frames: Seq<FrameView>, root: IpAddress, exchanges: nat) -> (
    ResolverView,
    ActionView,
) {
    if exchanges >= MAX_EXCHANGES {
        (
            ResolverView { frames, root, exchanges },
            ActionView::Done(Err(LookupError::Exhausted)),
        )
    } else {
        let f = frames.last();
        (
            ResolverView { frames, root, exchanges: exchanges + 1 },
            ActionView::Query { name: f.name, query_type: f.query_type, server: f.server },
        )
    }
}

/// Hands the result `p` of a finished resolution to the ones in `rest` that
/// wait on it: the outermost result is the resolver's; a nested one gives its
/// parent a server when it holds an IPv4 answer, and otherwise the parent
/// finishes with its own last response.
pub open spec fn deliver(rest: Seq<FrameView>, root: IpAddress, exchanges: nat, p: PacketView) -> (
    ResolverView,
    ActionView,
)
    decreases rest.len(),
{
    if rest.len() == 0 {
        (ResolverView { frames: rest, root, exchanges }, ActionView::Done(Ok(p)))
    } else {
        let parent = rest.last();
        match answer_address(p, DnsQueryType::A) {
            Some(IpAddress::V4(a)) => issue(
                rest.update(rest.len() - 1, FrameView { server: IpAddress::V4(a), ..parent }),
                root,
                exchanges,
            ),
            _ => match parent.last {
                Some(lp) => deliver(rest.drop_last(), root, exchanges, lp),
                None => (
                    ResolverView { frames: rest.drop_last(), root, exchanges },
                    ActionView::Done(Err(LookupError::Exhausted)),
                ),
            },
        }
    }
}

/// What the resolver does with the outcome `ev` of its last query: a
/// terminal response finishes the innermost resolution; a glue address for a
/// delegated name server becomes its next server; else the first delegated
/// name server's host is resolved in a nested resolution from the root; with
/// no delegation the response finishes the resolution. A failed exchange
/// finishes it with its last response, or fails it where it has none.
pub open spec fn next_step(s: ResolverView, ev: Result<PacketView, LookupError>) -> (
    ResolverView,
    ActionView,
) {
    let top = s.frames.last();
    let rest = s.frames.drop_last();
    match ev {
        Err(e) => match top.last {
            Some(lp) => deliver(rest, s.root, s.exchanges, lp),
            None => if rest.len() == 0 {
                (ResolverView { frames: rest, ..s }, ActionView::Done(Err(e)))
            } else {
                match rest.last().last {
                    Some(plp) => deliver(rest.drop_last(), s.root, s.exchanges, plp),
                    None => (
                        ResolverView { frames: rest.drop_last(), ..s },
                        ActionView::Done(Err(e)),
                    ),
                }
            },
        },
        Ok(p) => if is_terminal(p) {
            deliver(rest, s.root, s.exchanges, p)
        } else {
            let servers = nameservers_for(p.authorities, top.name);
            match first_glue(servers, p.additional, top.query_type) {
                Some(a) => issue(
                    s.frames.update(
                        s.frames.len() - 1,
                        FrameView { server: a, last: Some(p), ..top },
                    ),
                    s.root,
                    s.exchanges,
                ),
                None => if servers.len() == 0 {
                    deliver(rest, s.root, s.exchanges, p)
                } else if s.frames.len() >= MAX_DEPTH {
                    (
                        ResolverView {
                            frames: s.frames.update(
                                s.frames.len() - 1,
                                FrameView { last: Some(p), ..top },
                            ),
                            ..s
                        },
                        ActionView::Done(Err(LookupError::Exhausted)),
                    )
                } else {
                    issue(
                        s.frames.update(
                            s.frames.len() - 1,
                            FrameView { last: Some(p), ..top },
                        ).push(
                            FrameView {
                                name: servers[0].1,
                                query_type: DnsQueryType::A,
                                server: s.root,
                                last: None,
                            },
                        ),
                        s.root,
                        s.exchanges,
                    )
                },
            }
        },
    }
}

/// A response that says the name does not exist finishes the resolution that
/// asked for it at once, whatever its authority section holds: no delegation
/// is followed. For the outermost resolution the response itself is the
/// result.
pub proof fn lemma_nxdomain_is_terminal(s: ResolverView, p: PacketView)
    requires
        s.frames.len() >= 1,
        p.header.response_code == DnsResponseCode::NxDomain,
    ensures
        next_step(s, Ok(p)) == deliver(s.frames.drop_last(), s.root, s.exchanges, p),
        s.frames.len() == 1 ==> next_step(s, Ok(p)).1 == ActionView::Done(Ok(p)),
{
}

/// Where a referral offers a glue address for one of its name servers, the
/// resolver asks that address next and starts no nested resolution, even when
/// other name servers come without glue.
pub proof fn lemma_glue_preferred(s: ResolverView, p: PacketView, a: IpAddress)
    requires
        s.frames.len() >= 1,
        !is_terminal(p),
        first_glue(
            nameservers_for(p.authorities, s.frames.last().name),
            p.additional,
            s.frames.last().query_type,
        ) == Some(a),
    ensures
        next_step(s, Ok(p)).0.frames.len() == s.frames.len(),
        next_step(s, Ok(p)).0.frames.last().server == a,
        s.exchanges < MAX_EXCHANGES ==> next_step(s, Ok(p)).1 == (ActionView::Query {
            name: s.frames.last().name,
            query_type: s.frames.last().query_type,
            server: a,
        }),
{
}

/// The state that `Resolver::start` gives for `name`, `query_type` and
/// `root`.
pub open spec fn start_state(name: Seq<char>, query_type: DnsQueryType, root: IpAddress) -> ResolverView {
    ResolverView {
        frames: seq![FrameView { name, query_type, server: root, last: None }],
        root,
        exchanges: 1,
    }
}

/// Through a three-level hierarchy, where the root and then the next server
/// each refer onward with a glue address and the third server answers, the
/// resolver asks the root, then the two glue addresses in turn, and returns
/// the third response: three exchanges, and no second query to the root.
pub proof fn lemma_three_level_convergence(
    name: Seq<char>,
    root: IpAddress,
    r1: PacketView,
    r2: PacketView,
    r3: PacketView,
    t: IpAddress,
    a: IpAddress,
)
    requires
        !is_terminal(r1),
        first_glue(nameservers_for(r1.authorities, name), r1.additional, DnsQueryType::A) == Some(
            t,
        ),
        !is_terminal(r2),
        first_glue(nameservers_for(r2.authorities, name), r2.additional, DnsQueryType::A) == Some(
            a,
        ),
        is_terminal(r3),
    ensures
        ({
            let s1 = next_step(start_state(name, DnsQueryType::A, root), Ok(r1));
            let s2 = next_step(s1.0, Ok(r2));
            let s3 = next_step(s2.0, Ok(r3));
            &&& s1.1 == (ActionView::Query { name, query_type: DnsQueryType::A, server: t })
            &&& s2.1 == (ActionView::Query { name, query_type: DnsQueryType::A, server: a })
            &&& s3.1 == ActionView::Done(Ok(r3))
            &&& s3.0.exchanges == 3
        }),
{
    let s0 = start_state(name, DnsQueryType::A, root);
    let s1 = next_step(s0, Ok(r1));
    assert(s1.0.frames.len() == 1);
    assert(s1.0.frames.last().name == name);
    assert(s1.0.frames.last().query_type == DnsQueryType::A);
    assert(s1.0.exchanges == 2);
    let s2 = next_step(s1.0, Ok(r2));
    assert(s2.0.frames.len() == 1);
    assert(s2.0.exchanges == 3);
    assert(s2.0.frames.drop_last().len() == 0);
}

/// An iterative resolver, driven from outside: it says which query to send
/// next, and is told what came of it.
#[derive(Debug)]
pub struct Resolver {
    pub frames: Vec<Frame>,
    pub root: IpAddress,
    pub exchanges: usize,
}

impl View for Resolver {
    type V = ResolverView;

    open spec fn view(&self) -> ResolverView {
        ResolverView {
            frames: self.frames@.map_values(|f: Frame| f@),
            root: self.root,
            exchanges: self.exchanges as nat,
        }
    }
}

impl Resolver {
    /// Whether the resolver is waiting for the outcome of a query.
    pub open spec fn wf(&self) -> bool {
        &&& self.frames@.len() >= 1
        &&& frames_wf(self@.frames)
        &&& self.exchanges <= MAX_EXCHANGES
    }

    /// A resolver for records of `query_type` about `name` that starts at
    /// `root`, and the first query it asks for.
    pub fn start(name: String, query_type: DnsQueryType, root: IpAddress) -> (r: (Resolver, Action))
        ensures
            r.0.wf(),
            r.0@ == start_state(name@, query_type, root),
            r.1@ == (ActionView::Query { name: name@, query_type, server: root }),
    {
        let query_name = name.clone();
        let mut frames: Vec<Frame> = Vec::new();
        frames.push(Frame { name, query_type, server: root, last: None });
        let r = Resolver { frames, root, exchanges: 1 };
        assert(r@.frames =~= seq![FrameView { name: name@, query_type, server: root, last: None }]);
        (r, Action::Query { name: query_name, query_type, server: root })
    }

    fn issue(&mut self) -> (r: Action)
        requires
            old(self).frames@.len() >= 1,
            old(self).exchanges <= MAX_EXCHANGES,
        ensures
            (final(self)@, r@) == issue(old(self)@.frames, old(self)@.root, old(self)@.exchanges),
            final(self).frames == old(self).frames,
            final(self).exchanges <= MAX_EXCHANGES,
    {
        if self.exchanges >= MAX_EXCHANGES {
            return Action::Done(Err(LookupError::Exhausted));
        }
        self.exchanges = self.exchanges + 1;
        let top = &self.frames[self.frames.len() - 1];
        assert(self@.frames.last() == top@);
        Action::Query { name: top.name.clone(), query_type: top.query_type, server: top.server }
    }

    fn deliver(&mut self, p: DnsPacket) -> (r: Action)
        requires
            frames_wf(old(self)@.frames),
            old(self).exchanges <= MAX_EXCHANGES,
        ensures
            (final(self)@, r@) == deliver(
                old(self)@.frames,
                old(self)@.root,
                old(self)@.exchanges,
                p@,
            ),
            frames_wf(final(self)@.frames),
            final(self).exchanges <= MAX_EXCHANGES,
            r is Query ==> final(self).frames@.len() >= 1,
    {
        let mut packet = p;
        loop
            invariant
                frames_wf(self@.frames),
                self.exchanges <= MAX_EXCHANGES,
                self.root == old(self).root,
                self.exchanges == old(self).exchanges,
                deliver(self@.frames, self@.root, self@.exchanges, packet@) == deliver(
                    old(self)@.frames,
                    old(self)@.root,
                    old(self)@.exchanges,
                    p@,
                ),
            decreases self.frames@.len(),
        {
            let ghost fs = self@.frames;
            if self.frames.len() == 0 {
                return Action::Done(Ok(packet));
            }
            let mut parent = self.frames.pop().unwrap();
            assert(self@.frames =~= fs.drop_last());
            assert(parent@ == fs.last());
            match packet.get_record(DnsQueryType::A) {
                Some(IpAddress::V4(a)) => {
                    parent.server = IpAddress::V4(a);
                    self.frames.push(parent);
                    assert(self@.frames =~= fs.update(
                        fs.len() - 1,
                        FrameView { server: IpAddress::V4(a), ..fs.last() },
                    ));
                    return self.issue();
                },
                _ => {
                    match parent.last {
                        Some(lp) => {
                            packet = lp;
                        },
                        None => {
                            return Action::Done(Err(LookupError::Exhausted));
                        },
                    }
                },
            }
        }
    }

    /// Takes the outcome of the last query asked for and says what to do
    /// next.
    pub fn step(&mut self, event: Result<DnsPacket, LookupError>) -> (r: Action)
        requires
            old(self).wf(),
        ensures
            (final(self)@, r@) == next_step(old(self)@, event_view(event)),
            r is Query ==> final(self).wf(),
    {
        let ghost s = self@;
        let mut top = self.frames.pop().unwrap();
        assert(self@.frames =~= s.frames.drop_last());
        assert(top@ == s.frames.last());
        match event {
            Err(e) => {
                match top.last {
                    Some(lp) => self.deliver(lp),
                    None => {
                        if self.frames.len() == 0 {
                            return Action::Done(Err(e));
                        }
                        let mut parent = self.frames.pop().unwrap();
                        assert(parent@ == s.frames.drop_last().last());
                        assert(self@.frames =~= s.frames.drop_last().drop_last());
                        match parent.last {
                            Some(plp) => self.deliver(plp),
                            None => Action::Done(Err(e)),
                        }
                    },
                }
            },
            Ok(p) => {
                let code = p.header.response_code;
                if (p.answers.len() > 0 && code == DnsResponseCode::NoError) || code
                    == DnsResponseCode::NxDomain {
                    return self.deliver(p);
                }
                let glue = p.get_resolved_nameserver(top.name.as_str(), top.query_type);
                match glue {
                    Some(a) => {
                        top.server = a;
                        top.last = Some(p);
                        self.frames.push(top);
                        assert(self@.frames =~= s.frames.update(
                            s.frames.len() - 1,
                            FrameView { server: a, last: Some(p@), ..s.frames.last() },
                        ));
                        self.issue()
                    },
                    None => {
                        match p.get_uresolved_nameserver(top.name.as_str()) {
                            None => self.deliver(p),
                            Some(host) => {
                                let depth_reached = self.frames.len() >= MAX_DEPTH - 1;
                                top.last = Some(p);
                                self.frames.push(top);
                                assert(self@.frames =~= s.frames.update(
                                    s.frames.len() - 1,
                                    FrameView { last: Some(p@), ..s.frames.last() },
                                ));
                                if depth_reached {
                                    return Action::Done(Err(LookupError::Exhausted));
                                }
                                let ghost before = self@.frames;
                                self.frames.push(
                                    Frame {
                                        name: host,
                                        query_type: DnsQueryType::A,
                                        server: self.root,
                                        last: None,
                                    },
                                );
                                assert(self@.frames =~= before.push(
                                    FrameView {
                                        name: host@,
                                        query_type: DnsQueryType::A,
                                        server: self.root,
                                        last: None,
                                    },
                                ));
                                self.issue()
                            },
                        }
                    },
                }
            },
        }
    }
}

} // verus!

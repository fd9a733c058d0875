use crate::dns::buffer::{
    be16, fits, push_u16, spliced, u16_at, PacketBuffer, PacketBufferError, BUFFER_SIZE,
};
use crate::dns::name::{encode_name, name_wire, read_name, writable_name};
use crate::dns::query::{
    query_class_of, query_class_value, query_type_of, query_type_value, DnsQueryClass,
    DnsQueryType,
};
use vstd::prelude::*;
use vstd::utf8::*;

verus! {

/// A question as values: the name asked about, the kind of record and the
/// class.
pub struct QuestionView {
    pub name: Seq<char>,
    pub query_type: DnsQueryType,
    pub query_class: DnsQueryClass,
}

/// One entry of the question section.
#[derive(Debug)]
pub struct DnsQuestion {
    pub name: String,
    pub query_type: DnsQueryType,
    pub query_class: DnsQueryClass,
}

impl View for DnsQuestion {
    type V = QuestionView;

    open spec fn view(&self) -> QuestionView {
        QuestionView { name: self.name@, query_type: self.query_type, query_class: self.query_class }
    }
}

impl PartialEq for DnsQuestion {
    fn eq(&self, other: &DnsQuestion) -> (r: bool)
        ensures
            r == (self@ == other@),
    {
        self.name == other.name && self.query_type == other.query_type && self.query_class
            == other.query_class
    }
}

impl vstd::std_specs::cmp::PartialEqSpecImpl for DnsQuestion {
    open spec fn obeys_eq_spec() -> bool {
        true
    }

    open spec fn eq_spec(&self, other: &DnsQuestion) -> bool {
        self@ == other@
    }
}

impl Eq for DnsQuestion {

}

/// The wire form of a question whose name can be written: the name, then the
/// type code and the class code.
pub open spec fn question_wire(q: QuestionView) -> Seq<u8> {
    name_wire(encode_utf8(q.name)) + be16(query_type_value(q.query_type)) + be16(
        query_class_value(q.query_class),
    )
}

/// Whether a question can be written: its name can.
pub open spec fn writable_question(q: QuestionView) -> bool {
    writable_name(encode_utf8(q.name))
}

/// What reading a question at `pos` of `buf` gives: the question and the
/// cursor after it, or an error.
pub open spec fn parse_question(buf: Seq<u8>, pos: int) -> Result<
    (QuestionView, int),
    PacketBufferError,
> {
    match read_name(buf, pos) {
        Err(e) => Err(e),
        Ok((name, c)) => if !fits(c, 4) {
            Err(PacketBufferError::EndOfBuffer)
        } else {
            Ok(
                (
                    QuestionView {
                        name,
                        query_type: query_type_of(u16_at(buf, c)),
                        query_class: query_class_of(u16_at(buf, c + 2)),
                    },
                    c + 4,
                ),
            )
        },
    }
}

/// The wire form of a question, or the error that stops it from being
/// written.
pub fn encode_question(q: &DnsQuestion) -> (r: Result<Vec<u8>, PacketBufferError>)
    ensures
        writable_question(q@) ==> r is Ok && r->Ok_0@ == question_wire(q@),
        !writable_question(q@) ==> r == Err::<Vec<u8>, _>(PacketBufferError::InvalidLabelLength),
{
    let mut out = match encode_name(q.name.as_str().as_bytes()) {
        Ok(w) => w,
        Err(e) => {
            return Err(e);
        },
    };
    push_u16(&mut out, q.query_type.to_u16());
    push_u16(&mut out, q.query_class.to_u16());
    Ok(out)
}

impl DnsQuestion {
    /// A question for `name` and `query_type` in the Internet class.
    pub fn new(name: String, query_type: DnsQueryType) -> (r: Self)
        ensures
            r@ == (QuestionView { name: name@, query_type, query_class: DnsQueryClass::IN }),
    {
        Self { name, query_type, query_class: DnsQueryClass::IN }
    }

    /// Reads a question at the cursor: a name, a type code and a class code.
    pub fn read(buffer: &mut PacketBuffer) -> (r: Result<Self, PacketBufferError>)
        ensures
            old(buffer).pos <= BUFFER_SIZE ==> final(buffer).pos <= BUFFER_SIZE,
            final(buffer).buffer == old(buffer).buffer,
            match parse_question(old(buffer).bytes(), old(buffer).pos as int) {
                Ok((q, c)) => r is Ok && r->Ok_0@ == q && final(buffer).pos == c,
                Err(e) => r == Err::<Self, _>(e),
            },
    {
        let name = buffer.read_query_name()?;
        let query_type = DnsQueryType::from_u16(buffer.read_u16()?);
        let query_class = DnsQueryClass::from_u16(buffer.read_u16()?);
        Ok(DnsQuestion { name, query_type, query_class })
    }

    /// Writes the question at the cursor. A name that cannot be written, or a
    /// question that does not fit, fails and leaves the buffer as it was.
    pub fn write(&self, buffer: &mut PacketBuffer) -> (r: Result<(), PacketBufferError>)
        ensures
            old(buffer).pos <= BUFFER_SIZE ==> final(buffer).pos <= BUFFER_SIZE,
            !writable_question(self@) ==> r == Err::<(), _>(PacketBufferError::InvalidLabelLength)
                && *final(buffer) == *old(buffer),
            writable_question(self@) && fits(
                old(buffer).pos as int,
                question_wire(self@).len() as int,
            ) ==> r is Ok && final(buffer).pos == old(buffer).pos + question_wire(self@).len()
                && final(buffer).bytes() == spliced(
                old(buffer).bytes(),
                old(buffer).pos as int,
                question_wire(self@),
            ),
            writable_question(self@) && !fits(
                old(buffer).pos as int,
                question_wire(self@).len() as int,
            ) ==> r == Err::<(), _>(PacketBufferError::EndOfBuffer) && *final(buffer) == *old(buffer),
    {
        match encode_question(self) {
            Ok(w) => buffer.write_bytes(w.as_slice()),
            Err(e) => Err(e),
        }
    }
}


/// Whether a question comes back unchanged from its wire form: its name's
/// labels hold one to 63 bytes each, and its type is read back as itself
/// from its code.
pub open spec fn well_formed_question(q: QuestionView) -> bool {
    &&& crate::dns::name::well_formed_name(q.name)
    &&& crate::dns::query::canonical_query_type(q.query_type)
}

/// A well-formed question, written at `p`, is read back as itself, with the
/// cursor just past it.
pub proof fn lemma_question_round_trip(buf: Seq<u8>, p: int, q: QuestionView)
    requires
        buf.len() == BUFFER_SIZE,
        0 <= p,
        well_formed_question(q),
        p + question_wire(q).len() <= BUFFER_SIZE,
        buf.subrange(p, p + question_wire(q).len()) == question_wire(q),
    ensures
        writable_question(q),
        parse_question(buf, p) == Ok::<(QuestionView, int), PacketBufferError>(
            (q, p + question_wire(q).len()),
        ),
{
    let nw = name_wire(encode_utf8(q.name));
    let t = be16(query_type_value(q.query_type));
    let c = be16(query_class_value(q.query_class));
    crate::dns::buffer::lemma_sub_concat(buf, p, nw + t, c);
    crate::dns::buffer::lemma_sub_concat(buf, p, nw, t);
    crate::dns::name::lemma_name_round_trip(buf, p, q.name);
    crate::dns::buffer::lemma_u16_at(buf, p + nw.len(), query_type_value(q.query_type));
    crate::dns::buffer::lemma_u16_at(buf, p + nw.len() + 2, query_class_value(q.query_class));
}

} // verus!

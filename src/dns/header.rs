use crate::dns::buffer::{
    be16, fits, lemma_sub_concat, lemma_u16_at, push_u16, spliced, u16_at, PacketBuffer,
    PacketBufferError, BUFFER_SIZE,
};
use vstd::prelude::*;

verus! {

/// The response code of a message; a code outside the six known ones is kept
/// as it came.
#[derive(Debug, PartialEq, Eq, Copy, Clone, Structural)]
pub enum DnsResponseCode {
    NoError,
    FormErr,
    ServFail,
    NxDomain,
    NotImp,
    Refused,
    Unrecognized(u8),
}

/// The response code that a numeric code stands for.
pub open spec fn response_code_of(value: u8) -> DnsResponseCode {
    match value {
        0 => DnsResponseCode::NoError,
        1 => DnsResponseCode::FormErr,
        2 => DnsResponseCode::ServFail,
        3 => DnsResponseCode::NxDomain,
        4 => DnsResponseCode::NotImp,
        5 => DnsResponseCode::Refused,
        _ => DnsResponseCode::Unrecognized(value),
    }
}

/// The numeric code of a response code.
pub open spec fn response_code_value(code: DnsResponseCode) -> u8 {
    match code {
        DnsResponseCode::NoError => 0,
        DnsResponseCode::FormErr => 1,
        DnsResponseCode::ServFail => 2,
        DnsResponseCode::NxDomain => 3,
        DnsResponseCode::NotImp => 4,
        DnsResponseCode::Refused => 5,
        DnsResponseCode::Unrecognized(v) => v,
    }
}

/// Whether a response code fits the four bits of its field and reads back as
/// itself: one of the six known codes, or `Unrecognized(v)` with v from 6 to
/// 15.
pub open spec fn valid_response_code(code: DnsResponseCode) -> bool {
    &&& response_code_value(code) <= 15
    &&& response_code_of(response_code_value(code)) == code
}

impl DnsResponseCode {
    /// The response code that `value` stands for; an unknown value is kept in
    /// `Unrecognized`.
    pub fn from_u8(value: u8) -> (r: DnsResponseCode)
        ensures
            r == response_code_of(value),
            value <= 15 ==> valid_response_code(r),
    {
        match value {
            0 => DnsResponseCode::NoError,
            1 => DnsResponseCode::FormErr,
            2 => DnsResponseCode::ServFail,
            3 => DnsResponseCode::NxDomain,
            4 => DnsResponseCode::NotImp,
            5 => DnsResponseCode::Refused,
            _ => DnsResponseCode::Unrecognized(value),
        }
    }

    /// The numeric code of this response code.
    pub fn to_u8(&self) -> (r: u8)
        ensures
            r == response_code_value(*self),
    {
        match *self {
            DnsResponseCode::NoError => 0,
            DnsResponseCode::FormErr => 1,
            DnsResponseCode::ServFail => 2,
            DnsResponseCode::NxDomain => 3,
            DnsResponseCode::NotImp => 4,
            DnsResponseCode::Refused => 5,
            DnsResponseCode::Unrecognized(v) => v,
        }
    }
}

/// The fixed header of a message: its id, its flags and the sizes of its four
/// sections.
#[derive(Copy, Clone, Debug, PartialEq, Eq, Structural)]
pub struct DnsHeader {
    pub id: u16,
    pub query_response: bool,
    pub opcode: u8,
    pub authoritative_answer: bool,
    pub truncated_message: bool,
    pub recursion_desired: bool,
    pub recursion_available: bool,
    pub reserved: u8,
    pub response_code: DnsResponseCode,
    pub question_count: u16,
    pub answer_count: u16,
    pub authority_count: u16,
    pub additional_count: u16,
}

/// `h` with its flag fields taken from the 16-bit word `flags`: QR, OPCODE
/// (4 bits), AA, TC, RD, RA, Z (3 bits) and RCODE (4 bits), most significant
/// bit first.
pub open spec fn with_flags(h: DnsHeader, flags: u16) -> DnsHeader {
    DnsHeader {
        query_response: flags & 0x8000 != 0,
        opcode: ((flags & 0x7800) >> 11) as u8,
        authoritative_answer: flags & 0x0400 != 0,
        truncated_message: flags & 0x0200 != 0,
        recursion_desired: flags & 0x0100 != 0,
        recursion_available: flags & 0x0080 != 0,
        reserved: ((flags & 0x0070) >> 4) as u8,
        response_code: response_code_of((flags & 0x000F) as u8),
        ..h
    }
}

/// One bit set or clear.
pub open spec fn bit(set: bool, mask: u16) -> u16 {
    if set {
        mask
    } else {
        0
    }
}

/// The 16-bit flag word of `h`; each multi-bit field keeps only as many low
/// bits as its width.
pub open spec fn flags_of(h: DnsHeader) -> u16 {
    bit(h.query_response, 0x8000) | (((h.opcode as u16) & 0xF) << 11) | bit(
        h.authoritative_answer,
        0x0400,
    ) | bit(h.truncated_message, 0x0200) | bit(h.recursion_desired, 0x0100) | bit(
        h.recursion_available,
        0x0080,
    ) | (((h.reserved as u16) & 0x7) << 4) | ((response_code_value(h.response_code) as u16) & 0xF)
}

/// Whether every flag field of `h` fits its width, so that its flag word
/// holds it whole.
pub open spec fn flags_fit(h: DnsHeader) -> bool {
    &&& h.opcode <= 15
    &&& h.reserved <= 7
    &&& valid_response_code(h.response_code)
}

/// The twelve bytes of `h` on the wire.
pub open spec fn header_wire(h: DnsHeader) -> Seq<u8> {
    be16(h.id) + be16(flags_of(h)) + be16(h.question_count) + be16(h.answer_count) + be16(
        h.authority_count,
    ) + be16(h.additional_count)
}

/// The header stored at `pos` of `b`.
pub open spec fn header_at(b: Seq<u8>, pos: int) -> DnsHeader {
    with_flags(
        DnsHeader {
            id: u16_at(b, pos),
            question_count: u16_at(b, pos + 4),
            answer_count: u16_at(b, pos + 6),
            authority_count: u16_at(b, pos + 8),
            additional_count: u16_at(b, pos + 10),
            ..DnsHeader::spec_new()
        },
        u16_at(b, pos + 2),
    )
}

/// Unpacking a flag word and packing it again gives the same 16 bits.
pub proof fn lemma_flags_round_trip(flags: u16)
    ensures
        forall|h: DnsHeader| #[trigger] flags_of(with_flags(h, flags)) == flags,
{
    let rc = (flags & 0x000F) as u8;
    assert(response_code_value(response_code_of(rc)) == rc);
    assert(bit(flags & 0x8000 != 0, 0x8000) == flags & 0x8000) by (bit_vector);
    assert(bit(flags & 0x0400 != 0, 0x0400) == flags & 0x0400) by (bit_vector);
    assert(bit(flags & 0x0200 != 0, 0x0200) == flags & 0x0200) by (bit_vector);
    assert(bit(flags & 0x0100 != 0, 0x0100) == flags & 0x0100) by (bit_vector);
    assert(bit(flags & 0x0080 != 0, 0x0080) == flags & 0x0080) by (bit_vector);
    assert((((((flags & 0x7800) >> 11) as u8) as u16 & 0xF) << 11) == flags & 0x7800)
        by (bit_vector);
    assert((((((flags & 0x0070) >> 4) as u8) as u16 & 0x7) << 4) == flags & 0x0070)
        by (bit_vector);
    assert((((flags & 0x000F) as u8) as u16 & 0xF) == flags & 0x000F) by (bit_vector);
    assert((flags & 0x8000) | (flags & 0x7800) | (flags & 0x0400) | (flags & 0x0200) | (flags
        & 0x0100) | (flags & 0x0080) | (flags & 0x0070) | (flags & 0x000F) == flags)
        by (bit_vector);
}

/// Packing the flag fields of a header whose fields fit their widths and
/// unpacking the word again gives the same fields.
pub proof fn lemma_flags_unpack_pack(h: DnsHeader)
    requires
        flags_fit(h),
    ensures
        with_flags(h, flags_of(h)) == h,
{
    let qr = bit(h.query_response, 0x8000);
    let aa = bit(h.authoritative_answer, 0x0400);
    let tc = bit(h.truncated_message, 0x0200);
    let rd = bit(h.recursion_desired, 0x0100);
    let ra = bit(h.recursion_available, 0x0080);
    let op = h.opcode as u16;
    let z = h.reserved as u16;
    let rc = response_code_value(h.response_code) as u16;
    assert(qr == 0 || qr == 0x8000);
    assert(aa == 0 || aa == 0x0400);
    assert(tc == 0 || tc == 0x0200);
    assert(rd == 0 || rd == 0x0100);
    assert(ra == 0 || ra == 0x0080);
    let f = flags_of(h);
    assert(f == qr | ((op & 0xF) << 11) | aa | tc | rd | ra | ((z & 0x7) << 4) | (rc & 0xF));
    assert((qr == 0 || qr == 0x8000) && (aa == 0 || aa == 0x0400) && (tc == 0 || tc == 0x0200)
        && (rd == 0 || rd == 0x0100) && (ra == 0 || ra == 0x0080) && op <= 15 && z <= 7 && rc
        <= 15 && f == qr | ((op & 0xF) << 11) | aa | tc | rd | ra | ((z & 0x7) << 4) | (rc & 0xF)
        ==> (f & 0x8000 == qr && (f & 0x7800) >> 11 == op && f & 0x0400 == aa && f & 0x0200 == tc
        && f & 0x0100 == rd && f & 0x0080 == ra && (f & 0x0070) >> 4 == z && f & 0x000F == rc))
        by (bit_vector);
}

/// The twelve bytes of a header on the wire.
pub fn encode_header(h: &DnsHeader) -> (r: Vec<u8>)
    ensures
        r@ == header_wire(*h),
{
    let mut out: Vec<u8> = Vec::new();
    push_u16(&mut out, h.id);
    push_u16(&mut out, h.get_flags());
    push_u16(&mut out, h.question_count);
    push_u16(&mut out, h.answer_count);
    push_u16(&mut out, h.authority_count);
    push_u16(&mut out, h.additional_count);
    assert(out@ =~= header_wire(*h));
    out
}

impl DnsHeader {
    /// The header with every field zero or false and the response code
    /// `NoError`.
    pub open spec fn spec_new() -> DnsHeader {
        DnsHeader {
            id: 0,
            query_response: false,
            opcode: 0,
            authoritative_answer: false,
            truncated_message: false,
            recursion_desired: false,
            recursion_available: false,
            reserved: 0,
            response_code: DnsResponseCode::NoError,
            question_count: 0,
            answer_count: 0,
            authority_count: 0,
            additional_count: 0,
        }
    }

    /// A header with every field zero or false and the response code
    /// `NoError`.
    pub fn new() -> (r: Self)
        ensures
            r == Self::spec_new(),
    {
        Self {
            id: 0,
            query_response: false,
            opcode: 0,
            authoritative_answer: false,
            truncated_message: false,
            recursion_desired: false,
            recursion_available: false,
            reserved: 0,
            response_code: DnsResponseCode::NoError,
            question_count: 0,
            answer_count: 0,
            authority_count: 0,
            additional_count: 0,
        }
    }

    /// Reads a header at the cursor: the id, the flag word and the four
    /// section counts. Fails, with the cursor unmoved, where fewer than twelve
    /// bytes remain.
    pub fn read(buffer: &mut PacketBuffer) -> (r: Result<Self, PacketBufferError>)
        ensures
            old(buffer).pos <= BUFFER_SIZE ==> final(buffer).pos <= BUFFER_SIZE,
            final(buffer).buffer == old(buffer).buffer,
            fits(old(buffer).pos as int, 12) ==> r == Ok::<Self, PacketBufferError>(
                header_at(old(buffer).bytes(), old(buffer).pos as int),
            ) && final(buffer).pos == old(buffer).pos + 12,
            !fits(old(buffer).pos as int, 12) ==> r == Err::<Self, _>(
                PacketBufferError::EndOfBuffer,
            ) && final(buffer).pos == old(buffer).pos,
    {
        if buffer.pos > BUFFER_SIZE - 12 {
            return Err(PacketBufferError::EndOfBuffer);
        }
        let mut header = DnsHeader::new();
        header.id = buffer.read_u16().unwrap();
        let flags = buffer.read_u16().unwrap();
        header.set_flags(flags);
        header.question_count = buffer.read_u16().unwrap();
        header.answer_count = buffer.read_u16().unwrap();
        header.authority_count = buffer.read_u16().unwrap();
        header.additional_count = buffer.read_u16().unwrap();
        Ok(header)
    }

    /// Sets the flag fields from a 16-bit flag word.
    pub fn set_flags(&mut self, flags: u16)
        ensures
            *final(self) == with_flags(*old(self), flags),
            flags_fit(*final(self)),
    {
        self.query_response = (flags & 0x8000) != 0;
        self.opcode = ((flags & 0x7800) >> 11) as u8;
        self.authoritative_answer = (flags & 0x0400) != 0;
        self.truncated_message = (flags & 0x0200) != 0;
        self.recursion_desired = (flags & 0x0100) != 0;
        self.recursion_available = (flags & 0x0080) != 0;
        self.reserved = ((flags & 0x0070) >> 4) as u8;
        self.response_code = DnsResponseCode::from_u8((flags & 0x000F) as u8);
        assert((flags & 0x7800) >> 11 <= 15 && (flags & 0x0070) >> 4 <= 7 && flags & 0x000F <= 15)
            by (bit_vector);
    }

    /// The 16-bit flag word of this header.
    pub fn get_flags(&self) -> (r: u16)
        ensures
            r == flags_of(*self),
    {
        let qr: u16 = if self.query_response {
            0x8000
        } else {
            0
        };
        let aa: u16 = if self.authoritative_answer {
            0x0400
        } else {
            0
        };
        let tc: u16 = if self.truncated_message {
            0x0200
        } else {
            0
        };
        let rd: u16 = if self.recursion_desired {
            0x0100
        } else {
            0
        };
        let ra: u16 = if self.recursion_available {
            0x0080
        } else {
            0
        };
        qr | (((self.opcode as u16) & 0xF) << 11) | aa | tc | rd | ra | (((self.reserved as u16)
            & 0x7) << 4) | ((self.response_code.to_u8() as u16) & 0xF)
    }

    /// Writes the header at the cursor. Fails, leaving the buffer as it was,
    /// where fewer than twelve bytes remain.
    pub fn write(&self, buffer: &mut PacketBuffer) -> (r: Result<(), PacketBufferError>)
        ensures
            old(buffer).pos <= BUFFER_SIZE ==> final(buffer).pos <= BUFFER_SIZE,
            fits(old(buffer).pos as int, 12) ==> r is Ok && final(buffer).pos == old(buffer).pos
                + 12 && final(buffer).bytes() == spliced(
                old(buffer).bytes(),
                old(buffer).pos as int,
                header_wire(*self),
            ),
            !fits(old(buffer).pos as int, 12) ==> r == Err::<(), _>(PacketBufferError::EndOfBuffer)
                && *final(buffer) == *old(buffer),
    {
        if buffer.pos > BUFFER_SIZE - 12 {
            return Err(PacketBufferError::EndOfBuffer);
        }
        let ghost b = buffer.bytes();
        let ghost p = buffer.pos as int;
        let _ = buffer.write_u16(self.id);
        let _ = buffer.write_u16(self.get_flags());
        let _ = buffer.write_u16(self.question_count);
        let _ = buffer.write_u16(self.answer_count);
        let _ = buffer.write_u16(self.authority_count);
        let _ = buffer.write_u16(self.additional_count);
        proof {
            let w = header_wire(*self);
            crate::dns::buffer::lemma_spliced_twice(b, p, be16(self.id), be16(flags_of(*self)));
            let d2 = be16(self.id) + be16(flags_of(*self));
            crate::dns::buffer::lemma_spliced_twice(b, p, d2, be16(self.question_count));
            let d3 = d2 + be16(self.question_count);
            crate::dns::buffer::lemma_spliced_twice(b, p, d3, be16(self.answer_count));
            let d4 = d3 + be16(self.answer_count);
            crate::dns::buffer::lemma_spliced_twice(b, p, d4, be16(self.authority_count));
            let d5 = d4 + be16(self.authority_count);
            crate::dns::buffer::lemma_spliced_twice(b, p, d5, be16(self.additional_count));
        }
        Ok(())
    }
}


/// A header whose flag fields fit their widths, written at `p`, is read back
/// as itself.
pub proof fn lemma_header_round_trip(buf: Seq<u8>, p: int, h: DnsHeader)
    requires
        0 <= p,
        p + 12 <= buf.len(),
        flags_fit(h),
        buf.subrange(p, p + 12) == header_wire(h),
    ensures
        header_at(buf, p) == h,
{
    let ids = be16(h.id) + be16(flags_of(h)) + be16(h.question_count) + be16(h.answer_count)
        + be16(h.authority_count);
    lemma_sub_concat(buf, p, ids, be16(h.additional_count));
    lemma_sub_concat(
        buf,
        p,
        be16(h.id) + be16(flags_of(h)) + be16(h.question_count) + be16(h.answer_count),
        be16(h.authority_count),
    );
    lemma_sub_concat(
        buf,
        p,
        be16(h.id) + be16(flags_of(h)) + be16(h.question_count),
        be16(h.answer_count),
    );
    lemma_sub_concat(buf, p, be16(h.id) + be16(flags_of(h)), be16(h.question_count));
    lemma_sub_concat(buf, p, be16(h.id), be16(flags_of(h)));
    lemma_u16_at(buf, p, h.id);
    lemma_u16_at(buf, p + 2, flags_of(h));
    lemma_u16_at(buf, p + 4, h.question_count);
    lemma_u16_at(buf, p + 6, h.answer_count);
    lemma_u16_at(buf, p + 8, h.authority_count);
    lemma_u16_at(buf, p + 10, h.additional_count);
    lemma_flags_unpack_pack(h);
}

} // verus!

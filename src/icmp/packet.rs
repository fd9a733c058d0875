use crate::dns::buffer::{be16, be32};
use crate::icmp::buffer::{put_all, u16_at, u32_at, PacketBuffer, PacketBufferError};
use crate::icmp::types::{
    content_of, content_value, icmp_type_of, icmp_type_value, IcmpContentType, IcmpType,
};
use vstd::prelude::*;

verus! {

/// One's-complement addition of two 16-bit words: the carry out of the top
/// bit comes back in at the bottom.
pub open spec fn ones_add(a: u16, b: u16) -> u16 {
    if a as int + b as int > 0xFFFF {
        (a as int + b as int - 0xFFFF) as u16
    } else {
        (a as int + b as int) as u16
    }
}

/// The `i`-th big-endian 16-bit word of `b`, a last odd byte padded with zero.
pub open spec fn word_at(b: Seq<u8>, i: int) -> u16 {
    if 2 * i + 1 < b.len() {
        (b[2 * i] as int * 256 + b[2 * i + 1] as int) as u16
    } else {
        (b[2 * i] as int * 256) as u16
    }
}

/// The one's-complement sum of the first `n` words of `b`.
pub open spec fn ones_sum(b: Seq<u8>, n: nat) -> u16
    decreases n,
{
    if n == 0 {
        0
    } else {
        ones_add(ones_sum(b, (n - 1) as nat), word_at(b, n - 1))
    }
}

/// The Internet checksum of `b`: the one's complement of the one's-complement
/// sum of its 16-bit words.
pub open spec fn internet_checksum(b: Seq<u8>) -> u16 {
    (0xFFFF - ones_sum(b, ((b.len() + 1) / 2) as nat)) as u16
}

/// The bytes of a message: type, code, checksum, content word, payload.
pub open spec fn icmp_wire(
    t: IcmpType,
    code: u8,
    checksum: u16,
    content: IcmpContentType,
    payload: Seq<u8>,
) -> Seq<u8> {
    seq![icmp_type_value(t), code] + be16(checksum) + be32(content_value(content)) + payload
}

/// Putting bytes at the end appends them.
pub proof fn lemma_put_all_append(b: Seq<u8>, data: Seq<u8>)
    ensures
        put_all(b, b.len() as int, data) == b + data,
    decreases data.len(),
{
    if data.len() == 0 {
        assert(b + data =~= b);
    } else {
        lemma_put_all_append(b.push(data[0]), data.drop_first());
        assert(b.push(data[0]) + data.drop_first() =~= b + data);
    }
}

/// Putting bytes inside overwrites them.
pub proof fn lemma_put_all_inside(b: Seq<u8>, pos: int, data: Seq<u8>)
    requires
        0 <= pos,
        pos + data.len() <= b.len(),
    ensures
        put_all(b, pos, data) == b.subrange(0, pos) + data + b.subrange(
            pos + data.len(),
            b.len() as int,
        ),
    decreases data.len(),
{
    if data.len() == 0 {
        assert(b.subrange(0, pos) + data + b.subrange(pos, b.len() as int) =~= b);
    } else {
        lemma_put_all_inside(b.update(pos, data[0]), pos + 1, data.drop_first());
        assert(b.update(pos, data[0]).subrange(0, pos + 1) + data.drop_first() + b.update(
            pos,
            data[0],
        ).subrange(pos + data.len(), b.len() as int) =~= b.subrange(0, pos) + data + b.subrange(
            pos + data.len(),
            b.len() as int,
        ));
    }
}

/// An ICMP message.
#[derive(Clone, Debug)]
pub struct IcmpPacket {
    pub msg_type: IcmpType,
    pub msg_code: u8,
    pub checksum: u16,
    pub content: IcmpContentType,
    pub payload: Vec<u8>,
}

impl Default for IcmpPacket {
    /// An echo request with id 1, sequence number 1 and 32 zero bytes of
    /// payload.
    fn default() -> (r: Self)
        ensures
            r.msg_type == IcmpType::EchoRequest,
            r.msg_code == 0,
            r.checksum == 0,
            r.content == (IcmpContentType::Echo { id: 1, sequence_no: 1 }),
            r.payload@ == Seq::new(32, |i: int| 0u8),
    {
        let payload = vec![0u8; 32];
        assert(payload@ =~= Seq::new(32, |i: int| 0u8));
        IcmpPacket {
            msg_type: IcmpType::EchoRequest,
            msg_code: 0,
            checksum: 0,
            content: IcmpContentType::Echo { id: 1, sequence_no: 1 },
            payload,
        }
    }
}

impl IcmpPacket {
    /// An echo request with the given id and sequence number and
    /// `packet_size` zero bytes of payload.
    pub fn echo_request(id: u16, sequence_no: u16, packet_size: usize) -> (r: Self)
        ensures
            r.msg_type == IcmpType::EchoRequest,
            r.msg_code == 0,
            r.checksum == 0,
            r.content == (IcmpContentType::Echo { id, sequence_no }),
            r.payload@ == Seq::new(packet_size as nat, |i: int| 0u8),
    {
        let payload = vec![0u8; packet_size];
        assert(payload@ =~= Seq::new(packet_size as nat, |i: int| 0u8));
        IcmpPacket {
            msg_type: IcmpType::EchoRequest,
            msg_code: 0,
            checksum: 0,
            content: IcmpContentType::Echo { id, sequence_no },
            payload,
        }
    }

    /// Writes the message into an empty buffer, with its checksum computed
    /// over the message with a zero checksum field; the checksum is kept in
    /// the packet too.
    pub fn write(&mut self, buffer: &mut PacketBuffer) -> (r: Result<(), PacketBufferError>)
        requires
            old(buffer).buffer@.len() == 0,
            old(buffer).pos == 0,
            old(self).payload@.len() + 16 < usize::MAX,
        ensures
            r is Ok,
            final(self).checksum == internet_checksum(
                icmp_wire(
                    old(self).msg_type,
                    old(self).msg_code,
                    0,
                    old(self).content,
                    old(self).payload@,
                ),
            ),
            final(self).msg_type == old(self).msg_type,
            final(self).msg_code == old(self).msg_code,
            final(self).content == old(self).content,
            final(self).payload@ == old(self).payload@,
            final(buffer).buffer@ == icmp_wire(
                final(self).msg_type,
                final(self).msg_code,
                final(self).checksum,
                final(self).content,
                final(self).payload@,
            ),
    {
        let ghost t = icmp_type_value(self.msg_type);
        let ghost c = self.msg_code;
        let _ = buffer.write(self.msg_type.to_u8());
        assert(buffer.buffer@ =~= seq![t]);
        let _ = buffer.write(self.msg_code);
        assert(buffer.buffer@ =~= seq![t, c]);
        let ghost b2 = buffer.buffer@;
        let _ = buffer.write_u16(0);
        proof {
            lemma_put_all_append(b2, be16(0));
        }
        let ghost b3 = buffer.buffer@;
        let _ = buffer.write_u32(self.content.to_u32());
        proof {
            lemma_put_all_append(b3, be32(content_value(self.content)));
        }
        let ghost b4 = buffer.buffer@;
        let _ = buffer.write_bytes(self.payload.as_slice());
        proof {
            lemma_put_all_append(b4, self.payload@);
            assert(buffer.buffer@ =~= icmp_wire(
                self.msg_type,
                self.msg_code,
                0,
                self.content,
                self.payload@,
            ));
        }
        let checksum = self.calculate_checksum(buffer);
        let _ = buffer.seek(2);
        let ghost before = buffer.buffer@;
        let _ = buffer.write_u16(checksum);
        proof {
            lemma_put_all_inside(before, 2, be16(checksum));
            assert(buffer.buffer@ =~= icmp_wire(
                self.msg_type,
                self.msg_code,
                checksum,
                self.content,
                self.payload@,
            ));
        }
        self.checksum = checksum;
        Ok(())
    }

    /// The Internet checksum of the bytes in `buffer`.
    pub fn calculate_checksum(&self, buffer: &PacketBuffer) -> (r: u16)
        ensures
            r == internet_checksum(buffer.buffer@),
    {
        let b = &buffer.buffer;
        let n = b.len();
        let words = n / 2 + n % 2;
        assert(words == (n + 1) / 2);
        let mut sum: u16 = 0;
        let mut i: usize = 0;
        while i < words
            invariant
                0 <= i <= words,
                words == (b@.len() + 1) / 2,
                n == b@.len(),
                sum == ones_sum(b@, i as nat),
            decreases words - i,
        {
            let hi = b[2 * i] as u32;
            let lo = if 2 * i + 1 < n {
                b[2 * i + 1] as u32
            } else {
                0
            };
            let word = (hi * 256 + lo) as u16;
            assert(word == word_at(b@, i as int));
            let s = sum as u32 + word as u32;
            sum = if s > 0xFFFF {
                (s - 0xFFFF) as u16
            } else {
                s as u16
            };
            i = i + 1;
        }
        0xFFFF - sum
    }

    /// Reads a message at the cursor: type, code, checksum, content word, and
    /// the rest of the bytes as payload. A type outside the known ones fails.
    pub fn read(buffer: &mut PacketBuffer) -> (r: Result<Self, PacketBufferError>)
        ensures
            ({
                let b = old(buffer).buffer@;
                let p = old(buffer).pos as int;
                &&& p + 8 > b.len() ==> r == Err::<Self, _>(PacketBufferError::EndOfBuffer)
                &&& p + 8 <= b.len() && icmp_type_of(b[p]) == IcmpType::Unknown ==> r == Err::<
                    Self,
                    _,
                >(PacketBufferError::UnknownMessageType(b[p]))
                &&& p + 8 <= b.len() && icmp_type_of(b[p]) != IcmpType::Unknown ==> r is Ok && {
                    let q = r->Ok_0;
                    &&& q.msg_type == icmp_type_of(b[p])
                    &&& q.msg_code == b[p + 1]
                    &&& q.checksum == u16_at(b, p + 2)
                    &&& q.content == content_of(q.msg_type, u32_at(b, p + 4))
                    &&& q.payload@ == b.subrange(p + 8, b.len() as int)
                }
            }),
    {
        if buffer.pos >= buffer.buffer.len() || buffer.buffer.len() - buffer.pos < 8 {
            return Err(PacketBufferError::EndOfBuffer);
        }
        let type_byte = buffer.read()?;
        let msg_type = IcmpType::from_u8(type_byte);
        let msg_code = buffer.read()?;
        let checksum = buffer.read_u16()?;
        let word = buffer.read_u32()?;
        if msg_type == IcmpType::Unknown {
            return Err(PacketBufferError::UnknownMessageType(type_byte));
        }
        let content = IcmpContentType::new(msg_type, word);
        let rest = buffer.buffer.len() - buffer.pos;
        let payload = buffer.read_bytes(rest)?;
        Ok(IcmpPacket { msg_type, msg_code, checksum, content, payload })
    }
}

} // verus!

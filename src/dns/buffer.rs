use crate::dns::name::{
    append_bytes, encode_name, join_labels, name_wire, prepend_labels, read_labels, read_name,
    utf8_text, writable_name, DOT, MAX_JUMPS,
};
use vstd::prelude::*;
use vstd::utf8::*;

verus! {

/// Capacity of a message buffer: the classic ceiling of a DNS message over UDP.
pub const BUFFER_SIZE: usize = 512;

/// Ways in which an access to a `PacketBuffer` can fail.
#[derive(Debug, Clone, Copy, PartialEq, Eq, Structural)]
pub enum PacketBufferError {
    /// A seek to a position at or past the capacity.
    PositionOutOfBounds(usize),
    /// A read or a write that would run past the capacity.
    EndOfBuffer,
    /// A label of more than 63 bytes in a name to be written.
    InvalidLabelLength,
    /// A compressed name that follows more than five pointers.
    JumpLimitExceeded,
    /// A label whose bytes are not valid UTF-8.
    Utf8ConversionError,
}

/// `bytes` with `data` written over it from `pos` on.
pub open spec fn spliced(bytes: Seq<u8>, pos: int, data: Seq<u8>) -> Seq<u8> {
    bytes.subrange(0, pos) + data + bytes.subrange(pos + data.len(), bytes.len() as int)
}

/// Big-endian bytes of a 16-bit value.
pub open spec fn be16(v: u16) -> Seq<u8> {
    seq![(v / 256) as u8, (v % 256) as u8]
}

/// Big-endian bytes of a 32-bit value.
pub open spec fn be32(v: u32) -> Seq<u8> {
    be16((v / 0x1_0000) as u16) + be16((v % 0x1_0000) as u16)
}

/// Big-endian bytes of a 64-bit value.
pub open spec fn be64(v: u64) -> Seq<u8> {
    be32((v / 0x1_0000_0000) as u32) + be32((v % 0x1_0000_0000) as u32)
}

/// Big-endian bytes of a 128-bit value.
pub open spec fn be128(v: u128) -> Seq<u8> {
    be64((v / 0x1_0000_0000_0000_0000) as u64) + be64((v % 0x1_0000_0000_0000_0000) as u64)
}

/// The 16-bit value stored big-endian at `p`.
pub open spec fn u16_at(b: Seq<u8>, p: int) -> u16 {
    (b[p] as int * 256 + b[p + 1] as int) as u16
}

/// The 32-bit value stored big-endian at `p`.
pub open spec fn u32_at(b: Seq<u8>, p: int) -> u32 {
    (u16_at(b, p) as int * 0x1_0000 + u16_at(b, p + 2) as int) as u32
}

/// The 64-bit value stored big-endian at `p`.
pub open spec fn u64_at(b: Seq<u8>, p: int) -> u64 {
    (u32_at(b, p) as int * 0x1_0000_0000 + u32_at(b, p + 4) as int) as u64
}

/// The 128-bit value stored big-endian at `p`.
pub open spec fn u128_at(b: Seq<u8>, p: int) -> u128 {
    (u64_at(b, p) as int * 0x1_0000_0000_0000_0000 + u64_at(b, p + 8) as int) as u128
}

/// Whether `len` bytes fit in the buffer from `pos` on.
pub open spec fn fits(pos: int, len: int) -> bool {
    pos + len <= BUFFER_SIZE
}

/// Two writes side by side are one write of their concatenation.
pub proof fn lemma_spliced_twice(b: Seq<u8>, p: int, d1: Seq<u8>, d2: Seq<u8>)
    requires
        0 <= p,
        p + d1.len() + d2.len() <= b.len(),
    ensures
        spliced(spliced(b, p, d1), p + d1.len(), d2) == spliced(b, p, d1 + d2),
{
    assert(spliced(spliced(b, p, d1), p + d1.len(), d2) =~= spliced(b, p, d1 + d2));
}

/// A fixed-capacity byte store with a cursor, from which messages are read and
/// into which they are written.
pub struct PacketBuffer {
    pub buffer: [u8; 512],
    pub pos: usize,
}

impl PacketBuffer {
    /// The stored bytes.
    pub open spec fn bytes(&self) -> Seq<u8> {
        self.buffer@
    }

    /// A buffer of zeros with the cursor at the start.
    pub fn new() -> (r: Self)
        ensures
            r.pos == 0,
            r.bytes() == Seq::new(512, |i: int| 0u8),
    {
        let r = Self { buffer: [0u8; 512], pos: 0 };
        assert(r.bytes() =~= Seq::new(512, |i: int| 0u8));
        r
    }

    /// Moves the cursor to `pos`, which must lie inside the buffer.
    pub fn seek(&mut self, pos: usize) -> (r: Result<(), PacketBufferError>)
        ensures
            old(self).pos <= BUFFER_SIZE ==> final(self).pos <= BUFFER_SIZE,
            final(self).buffer == old(self).buffer,
            pos < BUFFER_SIZE ==> r is Ok && final(self).pos == pos,
            pos >= BUFFER_SIZE ==> r == Err::<(), _>(PacketBufferError::PositionOutOfBounds(pos))
                && final(self).pos == old(self).pos,
    {
        if pos >= BUFFER_SIZE {
            return Err(PacketBufferError::PositionOutOfBounds(pos));
        }
        self.pos = pos;
        Ok(())
    }

    /// The byte at `pos`; the cursor does not move.
    pub fn get(&self, pos: usize) -> (r: Result<u8, PacketBufferError>)
        ensures
            pos < BUFFER_SIZE ==> r == Ok::<u8, PacketBufferError>(self.bytes()[pos as int]),
            pos >= BUFFER_SIZE ==> r == Err::<u8, _>(PacketBufferError::EndOfBuffer),
    {
        if pos >= BUFFER_SIZE {
            return Err(PacketBufferError::EndOfBuffer);
        }
        Ok(self.buffer[pos])
    }

    /// The `len` bytes from `pos` on; the cursor does not move.
    pub fn get_bytes(&self, pos: usize, len: usize) -> (r: Result<&[u8], PacketBufferError>)
        ensures
            fits(pos as int, len as int) ==> r is Ok && r->Ok_0@ == self.bytes().subrange(
                pos as int,
                pos + len,
            ),
            !fits(pos as int, len as int) ==> r == Err::<&[u8], _>(PacketBufferError::EndOfBuffer),
    {
        if len > BUFFER_SIZE || pos > BUFFER_SIZE - len {
            return Err(PacketBufferError::EndOfBuffer);
        }
        let all = vstd::array::array_as_slice(&self.buffer);
        Ok(vstd::slice::slice_subrange(all, pos, pos + len))
    }

    /// Writes one byte at the cursor and moves past it.
    pub fn write(&mut self, value: u8) -> (r: Result<(), PacketBufferError>)
        ensures
            old(self).pos <= BUFFER_SIZE ==> final(self).pos <= BUFFER_SIZE,
            fits(old(self).pos as int, 1) ==> r is Ok && final(self).pos == old(self).pos + 1
                && final(self).bytes() == spliced(old(self).bytes(), old(self).pos as int, seq![value]),
            !fits(old(self).pos as int, 1) ==> r == Err::<(), _>(PacketBufferError::EndOfBuffer)
                && *final(self) == *old(self),
    {
        if self.pos >= BUFFER_SIZE {
            return Err(PacketBufferError::EndOfBuffer);
        }
        self.put8(value);
        Ok(())
    }

    fn put8(&mut self, value: u8)
        requires
            fits(old(self).pos as int, 1),
        ensures
            final(self).pos == old(self).pos + 1,
            final(self).bytes() == spliced(old(self).bytes(), old(self).pos as int, seq![value]),
    {
        self.buffer[self.pos] = value;
        self.pos = self.pos + 1;
        assert(self.bytes() =~= spliced(old(self).bytes(), old(self).pos as int, seq![value]));
    }

    fn put16(&mut self, value: u16)
        requires
            fits(old(self).pos as int, 2),
        ensures
            final(self).pos == old(self).pos + 2,
            final(self).bytes() == spliced(old(self).bytes(), old(self).pos as int, be16(value)),
    {
        let ghost b = self.bytes();
        let ghost p = self.pos as int;
        self.put8((value / 256) as u8);
        self.put8((value % 256) as u8);
        proof {
            lemma_spliced_twice(b, p, seq![(value / 256) as u8], seq![(value % 256) as u8]);
            assert(seq![(value / 256) as u8] + seq![(value % 256) as u8] =~= be16(value));
        }
    }

    fn put32(&mut self, value: u32)
        requires
            fits(old(self).pos as int, 4),
        ensures
            final(self).pos == old(self).pos + 4,
            final(self).bytes() == spliced(old(self).bytes(), old(self).pos as int, be32(value)),
    {
        let ghost b = self.bytes();
        let ghost p = self.pos as int;
        self.put16((value / 0x1_0000) as u16);
        self.put16((value % 0x1_0000) as u16);
        proof {
            lemma_spliced_twice(b, p, be16((value / 0x1_0000) as u16), be16((value % 0x1_0000) as u16));
        }
    }

    fn put64(&mut self, value: u64)
        requires
            fits(old(self).pos as int, 8),
        ensures
            final(self).pos == old(self).pos + 8,
            final(self).bytes() == spliced(old(self).bytes(), old(self).pos as int, be64(value)),
    {
        let ghost b = self.bytes();
        let ghost p = self.pos as int;
        self.put32((value / 0x1_0000_0000) as u32);
        self.put32((value % 0x1_0000_0000) as u32);
        proof {
            lemma_spliced_twice(
                b,
                p,
                be32((value / 0x1_0000_0000) as u32),
                be32((value % 0x1_0000_0000) as u32),
            );
        }
    }

    fn put128(&mut self, value: u128)
        requires
            fits(old(self).pos as int, 16),
        ensures
            final(self).pos == old(self).pos + 16,
            final(self).bytes() == spliced(old(self).bytes(), old(self).pos as int, be128(value)),
    {
        let ghost b = self.bytes();
        let ghost p = self.pos as int;
        self.put64((value / 0x1_0000_0000_0000_0000) as u64);
        self.put64((value % 0x1_0000_0000_0000_0000) as u64);
        proof {
            lemma_spliced_twice(
                b,
                p,
                be64((value / 0x1_0000_0000_0000_0000) as u64),
                be64((value % 0x1_0000_0000_0000_0000) as u64),
            );
        }
    }

    fn take8(&mut self) -> (r: u8)
        requires
            fits(old(self).pos as int, 1),
        ensures
            final(self).pos == old(self).pos + 1,
            final(self).buffer == old(self).buffer,
            r == old(self).bytes()[old(self).pos as int],
    {
        let r = self.buffer[self.pos];
        self.pos = self.pos + 1;
        r
    }

    fn take16(&mut self) -> (r: u16)
        requires
            fits(old(self).pos as int, 2),
        ensures
            final(self).pos == old(self).pos + 2,
            final(self).buffer == old(self).buffer,
            r == u16_at(old(self).bytes(), old(self).pos as int),
    {
        let hi = self.take8();
        let lo = self.take8();
        hi as u16 * 256 + lo as u16
    }

    fn take32(&mut self) -> (r: u32)
        requires
            fits(old(self).pos as int, 4),
        ensures
            final(self).pos == old(self).pos + 4,
            final(self).buffer == old(self).buffer,
            r == u32_at(old(self).bytes(), old(self).pos as int),
    {
        let hi = self.take16();
        let lo = self.take16();
        hi as u32 * 0x1_0000 + lo as u32
    }

    fn take64(&mut self) -> (r: u64)
        requires
            fits(old(self).pos as int, 8),
        ensures
            final(self).pos == old(self).pos + 8,
            final(self).buffer == old(self).buffer,
            r == u64_at(old(self).bytes(), old(self).pos as int),
    {
        let hi = self.take32();
        let lo = self.take32();
        hi as u64 * 0x1_0000_0000 + lo as u64
    }

    fn take128(&mut self) -> (r: u128)
        requires
            fits(old(self).pos as int, 16),
        ensures
            final(self).pos == old(self).pos + 16,
            final(self).buffer == old(self).buffer,
            r == u128_at(old(self).bytes(), old(self).pos as int),
    {
        let hi = self.take64();
        let lo = self.take64();
        hi as u128 * 0x1_0000_0000_0000_0000 + lo as u128
    }

    /// Reads one byte at the cursor and moves past it.
    pub fn read(&mut self) -> (r: Result<u8, PacketBufferError>)
        ensures
            old(self).pos <= BUFFER_SIZE ==> final(self).pos <= BUFFER_SIZE,
            final(self).buffer == old(self).buffer,
            fits(old(self).pos as int, 1) ==> r == Ok::<u8, PacketBufferError>(
                old(self).bytes()[old(self).pos as int],
            ) && final(self).pos == old(self).pos + 1,
            !fits(old(self).pos as int, 1) ==> r == Err::<u8, _>(PacketBufferError::EndOfBuffer)
                && final(self).pos == old(self).pos,
    {
        if self.pos >= BUFFER_SIZE {
            return Err(PacketBufferError::EndOfBuffer);
        }
        Ok(self.take8())
    }

    /// Reads a big-endian 16-bit integer at the cursor and moves past it.
    pub fn read_u16(&mut self) -> (r: Result<u16, PacketBufferError>)
        ensures
            old(self).pos <= BUFFER_SIZE ==> final(self).pos <= BUFFER_SIZE,
            final(self).buffer == old(self).buffer,
            fits(old(self).pos as int, 2) ==> r == Ok::<u16, PacketBufferError>(
                u16_at(old(self).bytes(), old(self).pos as int),
            ) && final(self).pos == old(self).pos + 2,
            !fits(old(self).pos as int, 2) ==> r == Err::<u16, _>(PacketBufferError::EndOfBuffer)
                && final(self).pos == old(self).pos,
    {
        if self.pos > BUFFER_SIZE - 2 {
            return Err(PacketBufferError::EndOfBuffer);
        }
        Ok(self.take16())
    }

    /// Reads a big-endian 32-bit integer at the cursor and moves past it.
    pub fn read_u32(&mut self) -> (r: Result<u32, PacketBufferError>)
        ensures
            old(self).pos <= BUFFER_SIZE ==> final(self).pos <= BUFFER_SIZE,
            final(self).buffer == old(self).buffer,
            fits(old(self).pos as int, 4) ==> r == Ok::<u32, PacketBufferError>(
                u32_at(old(self).bytes(), old(self).pos as int),
            ) && final(self).pos == old(self).pos + 4,
            !fits(old(self).pos as int, 4) ==> r == Err::<u32, _>(PacketBufferError::EndOfBuffer)
                && final(self).pos == old(self).pos,
    {
        if self.pos > BUFFER_SIZE - 4 {
            return Err(PacketBufferError::EndOfBuffer);
        }
        Ok(self.take32())
    }

    /// Reads a big-endian 64-bit integer at the cursor and moves past it.
    pub fn read_u64(&mut self) -> (r: Result<u64, PacketBufferError>)
        ensures
            old(self).pos <= BUFFER_SIZE ==> final(self).pos <= BUFFER_SIZE,
            final(self).buffer == old(self).buffer,
            fits(old(self).pos as int, 8) ==> r == Ok::<u64, PacketBufferError>(
                u64_at(old(self).bytes(), old(self).pos as int),
            ) && final(self).pos == old(self).pos + 8,
            !fits(old(self).pos as int, 8) ==> r == Err::<u64, _>(PacketBufferError::EndOfBuffer)
                && final(self).pos == old(self).pos,
    {
        if self.pos > BUFFER_SIZE - 8 {
            return Err(PacketBufferError::EndOfBuffer);
        }
        Ok(self.take64())
    }

    /// Reads a big-endian 128-bit integer at the cursor and moves past it.
    pub fn read_u128(&mut self) -> (r: Result<u128, PacketBufferError>)
        ensures
            old(self).pos <= BUFFER_SIZE ==> final(self).pos <= BUFFER_SIZE,
            final(self).buffer == old(self).buffer,
            fits(old(self).pos as int, 16) ==> r == Ok::<u128, PacketBufferError>(
                u128_at(old(self).bytes(), old(self).pos as int),
            ) && final(self).pos == old(self).pos + 16,
            !fits(old(self).pos as int, 16) ==> r == Err::<u128, _>(PacketBufferError::EndOfBuffer)
                && final(self).pos == old(self).pos,
    {
        if self.pos > BUFFER_SIZE - 16 {
            return Err(PacketBufferError::EndOfBuffer);
        }
        Ok(self.take128())
    }

    /// Reads `len` bytes at the cursor and moves past them.
    pub fn read_bytes(&mut self, len: usize) -> (r: Result<Vec<u8>, PacketBufferError>)
        ensures
            old(self).pos <= BUFFER_SIZE ==> final(self).pos <= BUFFER_SIZE,
            final(self).buffer == old(self).buffer,
            fits(old(self).pos as int, len as int) ==> r is Ok && r->Ok_0@ == old(self).bytes().subrange(
                old(self).pos as int,
                old(self).pos + len,
            ) && final(self).pos == old(self).pos + len,
            !fits(old(self).pos as int, len as int) ==> r == Err::<Vec<u8>, _>(
                PacketBufferError::EndOfBuffer,
            ) && final(self).pos == old(self).pos,
    {
        if len > BUFFER_SIZE || self.pos > BUFFER_SIZE - len {
            return Err(PacketBufferError::EndOfBuffer);
        }
        let all = vstd::array::array_as_slice(&self.buffer);
        let out = vstd::slice::slice_to_vec(vstd::slice::slice_subrange(all, self.pos, self.pos + len));
        self.pos = self.pos + len;
        Ok(out)
    }

    /// Writes a big-endian 16-bit integer at the cursor and moves past it.
    pub fn write_u16(&mut self, value: u16) -> (r: Result<(), PacketBufferError>)
        ensures
            old(self).pos <= BUFFER_SIZE ==> final(self).pos <= BUFFER_SIZE,
            fits(old(self).pos as int, 2) ==> r is Ok && final(self).pos == old(self).pos + 2
                && final(self).bytes() == spliced(old(self).bytes(), old(self).pos as int, be16(value)),
            !fits(old(self).pos as int, 2) ==> r == Err::<(), _>(PacketBufferError::EndOfBuffer)
                && *final(self) == *old(self),
    {
        if self.pos > BUFFER_SIZE - 2 {
            return Err(PacketBufferError::EndOfBuffer);
        }
        self.put16(value);
        Ok(())
    }

    /// Writes a big-endian 32-bit integer at the cursor and moves past it.
    pub fn write_u32(&mut self, value: u32) -> (r: Result<(), PacketBufferError>)
        ensures
            old(self).pos <= BUFFER_SIZE ==> final(self).pos <= BUFFER_SIZE,
            fits(old(self).pos as int, 4) ==> r is Ok && final(self).pos == old(self).pos + 4
                && final(self).bytes() == spliced(old(self).bytes(), old(self).pos as int, be32(value)),
            !fits(old(self).pos as int, 4) ==> r == Err::<(), _>(PacketBufferError::EndOfBuffer)
                && *final(self) == *old(self),
    {
        if self.pos > BUFFER_SIZE - 4 {
            return Err(PacketBufferError::EndOfBuffer);
        }
        self.put32(value);
        Ok(())
    }

    /// Writes a big-endian 64-bit integer at the cursor and moves past it.
    pub fn write_u64(&mut self, value: u64) -> (r: Result<(), PacketBufferError>)
        ensures
            old(self).pos <= BUFFER_SIZE ==> final(self).pos <= BUFFER_SIZE,
            fits(old(self).pos as int, 8) ==> r is Ok && final(self).pos == old(self).pos + 8
                && final(self).bytes() == spliced(old(self).bytes(), old(self).pos as int, be64(value)),
            !fits(old(self).pos as int, 8) ==> r == Err::<(), _>(PacketBufferError::EndOfBuffer)
                && *final(self) == *old(self),
    {
        if self.pos > BUFFER_SIZE - 8 {
            return Err(PacketBufferError::EndOfBuffer);
        }
        self.put64(value);
        Ok(())
    }

    /// Writes a big-endian 128-bit integer at the cursor and moves past it.
    pub fn write_u128(&mut self, value: u128) -> (r: Result<(), PacketBufferError>)
        ensures
            old(self).pos <= BUFFER_SIZE ==> final(self).pos <= BUFFER_SIZE,
            fits(old(self).pos as int, 16) ==> r is Ok && final(self).pos == old(self).pos + 16
                && final(self).bytes() == spliced(old(self).bytes(), old(self).pos as int, be128(value)),
            !fits(old(self).pos as int, 16) ==> r == Err::<(), _>(PacketBufferError::EndOfBuffer)
                && *final(self) == *old(self),
    {
        if self.pos > BUFFER_SIZE - 16 {
            return Err(PacketBufferError::EndOfBuffer);
        }
        self.put128(value);
        Ok(())
    }

    /// Reads a name at the cursor, following compression pointers, and returns
    /// its labels joined with dots. Without a pointer the cursor moves past the
    /// name; with one, it moves just past the first pointer. On an error the
    /// cursor stays where it was.
    pub fn read_query_name(&mut self) -> (r: Result<String, PacketBufferError>)
        ensures
            old(self).pos <= BUFFER_SIZE ==> final(self).pos <= BUFFER_SIZE,
            final(self).buffer == old(self).buffer,
            match read_name(old(self).bytes(), old(self).pos as int) {
                Ok((name, c)) => r is Ok && r->Ok_0@ == name && final(self).pos == c,
                Err(e) => r == Err::<String, _>(e) && final(self).pos == old(self).pos,
            },
    {
        let ghost buf = self.bytes();
        let ghost start = self.pos as int;
        let mut pos: usize = self.pos;
        let mut out: Vec<u8> = Vec::new();
        let ghost mut acc: Seq<Seq<u8>> = Seq::empty();
        let mut jumps: usize = 0;
        let mut cursor: Option<usize> = None;
        proof {
            assert(prepend_labels(acc, read_labels(buf, pos as int, 0, None)) =~= read_labels(buf, start, 0, None)) by {
                match read_labels(buf, start, 0, None) {
                    Ok((ls, c)) => { assert(acc + ls =~= ls); },
                    Err(e) => {},
                }
            }
            assert(valid_utf8(out@));
        }
        loop
            invariant
                self.bytes() == buf,
                self.buffer == old(self).buffer,
                self.pos == old(self).pos,
                buf == old(self).bytes(),
                start == old(self).pos,
                buf.len() == BUFFER_SIZE,
                jumps <= MAX_JUMPS + 1,
                cursor is Some ==> cursor->0 <= BUFFER_SIZE,
                out@ == join_labels(acc),
                acc.len() > 0 <==> out@.len() > 0,
                valid_utf8(out@),
                prepend_labels(acc, read_labels(buf, pos as int, jumps as int, match cursor {
                    Some(c) => Some(c as int),
                    None => None,
                })) == read_labels(buf, start, 0, None),
            decreases MAX_JUMPS + 1 - jumps, BUFFER_SIZE - pos,
        {
            let ghost cur = match cursor {
                Some(c) => Some(c as int),
                None => None,
            };
            if jumps > MAX_JUMPS {
                return Err(PacketBufferError::JumpLimitExceeded);
            }
            if pos >= BUFFER_SIZE {
                return Err(PacketBufferError::EndOfBuffer);
            }
            let len = self.buffer[pos];
            if len >= 0xC0 {
                if pos + 1 >= BUFFER_SIZE {
                    return Err(PacketBufferError::EndOfBuffer);
                }
                if cursor.is_none() {
                    cursor = Some(pos + 2);
                }
                pos = (len - 0xC0) as usize * 256 + self.buffer[pos + 1] as usize;
                jumps = jumps + 1;
            } else if len == 0 {
                let end = match cursor {
                    Some(c) => c,
                    None => pos + 1,
                };
                proof {
                    assert(acc + Seq::<Seq<u8>>::empty() =~= acc);
                }
                let text = utf8_text(out.as_slice());
                match text {
                    Some(t) => {
                        self.pos = end;
                        return Ok(t);
                    },
                    None => {
                        return Err(PacketBufferError::Utf8ConversionError);
                    },
                }
            } else {
                let n = len as usize;
                if pos + 1 + n > BUFFER_SIZE {
                    return Err(PacketBufferError::EndOfBuffer);
                }
                let all = vstd::array::array_as_slice(&self.buffer);
                let label = vstd::slice::slice_subrange(all, pos + 1, pos + 1 + n);
                if utf8_text(label).is_none() {
                    return Err(PacketBufferError::Utf8ConversionError);
                }
                proof {
                    let l = label@;
                    if acc.len() > 0 {
                        assert(valid_utf8(seq![DOT])) by {
                            reveal_with_fuel(valid_utf8, 2);
                        }
                        valid_utf8_concat(out@, seq![DOT]);
                        valid_utf8_concat(out@ + seq![DOT], l);
                    } else {
                        assert(out@ + l =~= l);
                    }
                    assert(acc.push(l).drop_last() =~= acc);
                    match read_labels(buf, pos + 1 + n, jumps as int, cur) {
                        Ok((ls, c)) => { assert(acc + (seq![l] + ls) =~= acc.push(l) + ls); },
                        Err(e) => {},
                    }
                }
                let ghost before = out@;
                if out.len() > 0 {
                    out.push(DOT);
                }
                append_bytes(&mut out, label);
                proof {
                    if before.len() > 0 {
                        assert(out@ =~= before + seq![DOT] + label@);
                    } else {
                        assert(out@ =~= label@);
                    }
                    acc = acc.push(label@);
                }
                pos = pos + 1 + n;
            }
        }
    }

    /// Writes `name` at the cursor, uncompressed: each label as a length octet
    /// and its bytes, then a zero octet. A label longer than 63 bytes, or a
    /// name that does not fit, fails and leaves the buffer as it was.
    pub fn write_query_name(&mut self, name: &str) -> (r: Result<(), PacketBufferError>)
        ensures
            old(self).pos <= BUFFER_SIZE ==> final(self).pos <= BUFFER_SIZE,
            !writable_name(encode_utf8(name@)) ==> r == Err::<(), _>(
                PacketBufferError::InvalidLabelLength,
            ) && *final(self) == *old(self),
            writable_name(encode_utf8(name@)) && fits(
                old(self).pos as int,
                name_wire(encode_utf8(name@)).len() as int,
            ) ==> r is Ok && final(self).pos == old(self).pos + name_wire(encode_utf8(name@)).len()
                && final(self).bytes() == spliced(
                old(self).bytes(),
                old(self).pos as int,
                name_wire(encode_utf8(name@)),
            ),
            writable_name(encode_utf8(name@)) && !fits(
                old(self).pos as int,
                name_wire(encode_utf8(name@)).len() as int,
            ) ==> r == Err::<(), _>(PacketBufferError::EndOfBuffer) && *final(self) == *old(self),
    {
        match encode_name(name.as_bytes()) {
            Ok(wire) => self.write_bytes(wire.as_slice()),
            Err(e) => Err(e),
        }
    }

    fn put_bytes(&mut self, bytes: &[u8])
        requires
            fits(old(self).pos as int, bytes@.len() as int),
        ensures
            final(self).pos == old(self).pos + bytes@.len(),
            final(self).bytes() == spliced(old(self).bytes(), old(self).pos as int, bytes@),
    {
        let ghost b = self.bytes();
        let ghost p = self.pos as int;
        let mut i: usize = 0;
        assert(b =~= spliced(b, p, bytes@.subrange(0, 0)));
        while i < bytes.len()
            invariant
                0 <= i <= bytes@.len(),
                self.pos == p + i,
                fits(p, bytes@.len() as int),
                b.len() == BUFFER_SIZE,
                self.bytes() == spliced(b, p, bytes@.subrange(0, i as int)),
            decreases bytes@.len() - i,
        {
            self.put8(bytes[i]);
            proof {
                lemma_spliced_twice(b, p, bytes@.subrange(0, i as int), seq![bytes@[i as int]]);
                assert(bytes@.subrange(0, i as int) + seq![bytes@[i as int]] =~= bytes@.subrange(
                    0,
                    i + 1,
                ));
            }
            i = i + 1;
        }
        assert(bytes@.subrange(0, bytes@.len() as int) =~= bytes@);
    }

    /// Writes `bytes` at the cursor and moves past them.
    pub fn write_bytes(&mut self, bytes: &[u8]) -> (r: Result<(), PacketBufferError>)
        ensures
            old(self).pos <= BUFFER_SIZE ==> final(self).pos <= BUFFER_SIZE,
            fits(old(self).pos as int, bytes@.len() as int) ==> r is Ok && final(self).pos
                == old(self).pos + bytes@.len() && final(self).bytes() == spliced(
                old(self).bytes(),
                old(self).pos as int,
                bytes@,
            ),
            !fits(old(self).pos as int, bytes@.len() as int) ==> r == Err::<(), _>(
                PacketBufferError::EndOfBuffer,
            ) && *final(self) == *old(self),
    {
        if bytes.len() > BUFFER_SIZE || self.pos > BUFFER_SIZE - bytes.len() {
            return Err(PacketBufferError::EndOfBuffer);
        }
        self.put_bytes(bytes);
        Ok(())
    }
}


/// Appends the big-endian bytes of a 16-bit value.
pub fn push_u16(out: &mut Vec<u8>, v: u16)
    ensures
        final(out)@ == old(out)@ + be16(v),
{
    out.push((v / 256) as u8);
    out.push((v % 256) as u8);
    assert(final(out)@ =~= old(out)@ + be16(v));
}

/// Appends the big-endian bytes of a 32-bit value.
pub fn push_u32(out: &mut Vec<u8>, v: u32)
    ensures
        final(out)@ == old(out)@ + be32(v),
{
    push_u16(out, (v / 0x1_0000) as u16);
    push_u16(out, (v % 0x1_0000) as u16);
    assert(final(out)@ =~= old(out)@ + be32(v));
}

/// Appends the big-endian bytes of a 64-bit value.
pub fn push_u64(out: &mut Vec<u8>, v: u64)
    ensures
        final(out)@ == old(out)@ + be64(v),
{
    push_u32(out, (v / 0x1_0000_0000) as u32);
    push_u32(out, (v % 0x1_0000_0000) as u32);
    assert(final(out)@ =~= old(out)@ + be64(v));
}

/// Appends the big-endian bytes of a 128-bit value.
pub fn push_u128(out: &mut Vec<u8>, v: u128)
    ensures
        final(out)@ == old(out)@ + be128(v),
{
    push_u64(out, (v / 0x1_0000_0000_0000_0000) as u64);
    push_u64(out, (v % 0x1_0000_0000_0000_0000) as u64);
    assert(final(out)@ =~= old(out)@ + be128(v));
}


/// Where `x + y` stands at `p`, `x` stands at `p` and `y` right after it.
pub proof fn lemma_sub_concat(b: Seq<u8>, p: int, x: Seq<u8>, y: Seq<u8>)
    requires
        0 <= p,
        p + x.len() + y.len() <= b.len(),
        b.subrange(p, p + x.len() + y.len()) == x + y,
    ensures
        b.subrange(p, p + x.len()) == x,
        b.subrange(p + x.len(), p + x.len() + y.len()) == y,
{
    assert forall|i: int| 0 <= i < x.len() implies b.subrange(p, p + x.len())[i] == x[i] by {
        assert(b.subrange(p, p + x.len() + y.len())[i] == (x + y)[i]);
    }
    assert forall|i: int| 0 <= i < y.len() implies b.subrange(
        p + x.len(),
        p + x.len() + y.len(),
    )[i] == y[i] by {
        assert(b.subrange(p, p + x.len() + y.len())[x.len() + i] == (x + y)[x.len() + i]);
        assert(b.subrange(p + x.len(), p + x.len() + y.len())[i] == b[p + x.len() + i]);
        assert(b.subrange(p, p + x.len() + y.len())[x.len() + i] == b[p + x.len() + i]);
    }
    assert(b.subrange(p, p + x.len()) =~= x);
    assert(b.subrange(p + x.len(), p + x.len() + y.len()) =~= y);
}

/// A 16-bit value written big-endian reads back as itself.
pub proof fn lemma_u16_at(b: Seq<u8>, p: int, v: u16)
    requires
        0 <= p,
        p + 2 <= b.len(),
        b.subrange(p, p + 2) == be16(v),
    ensures
        u16_at(b, p) == v,
{
    assert(b[p] == b.subrange(p, p + 2)[0]);
    assert(b[p + 1] == b.subrange(p, p + 2)[1]);
    assert((v / 256) as int * 256 + (v % 256) as int == v) by (nonlinear_arith);
}

/// A 32-bit value written big-endian reads back as itself.
pub proof fn lemma_u32_at(b: Seq<u8>, p: int, v: u32)
    requires
        0 <= p,
        p + 4 <= b.len(),
        b.subrange(p, p + 4) == be32(v),
    ensures
        u32_at(b, p) == v,
{
    let hi = (v / 0x1_0000) as u16;
    let lo = (v % 0x1_0000) as u16;
    lemma_sub_concat(b, p, be16(hi), be16(lo));
    lemma_u16_at(b, p, hi);
    lemma_u16_at(b, p + 2, lo);
    assert(hi as int * 0x1_0000 + lo as int == v) by (nonlinear_arith)
        requires
            hi == (v / 0x1_0000) as u16,
            lo == (v % 0x1_0000) as u16,
    ;
}

/// A 64-bit value written big-endian reads back as itself.
pub proof fn lemma_u64_at(b: Seq<u8>, p: int, v: u64)
    requires
        0 <= p,
        p + 8 <= b.len(),
        b.subrange(p, p + 8) == be64(v),
    ensures
        u64_at(b, p) == v,
{
    let hi = (v / 0x1_0000_0000) as u32;
    let lo = (v % 0x1_0000_0000) as u32;
    lemma_sub_concat(b, p, be32(hi), be32(lo));
    lemma_u32_at(b, p, hi);
    lemma_u32_at(b, p + 4, lo);
    assert(hi as int * 0x1_0000_0000 + lo as int == v) by (nonlinear_arith)
        requires
            hi == (v / 0x1_0000_0000) as u32,
            lo == (v % 0x1_0000_0000) as u32,
    ;
}

/// A 128-bit value written big-endian reads back as itself.
pub proof fn lemma_u128_at(b: Seq<u8>, p: int, v: u128)
    requires
        0 <= p,
        p + 16 <= b.len(),
        b.subrange(p, p + 16) == be128(v),
    ensures
        u128_at(b, p) == v,
{
    let hi = (v / 0x1_0000_0000_0000_0000) as u64;
    let lo = (v % 0x1_0000_0000_0000_0000) as u64;
    lemma_sub_concat(b, p, be64(hi), be64(lo));
    lemma_u64_at(b, p, hi);
    lemma_u64_at(b, p + 8, lo);
    assert(hi as int * 0x1_0000_0000_0000_0000 + lo as int == v) by (nonlinear_arith)
        requires
            hi == (v / 0x1_0000_0000_0000_0000) as u64,
            lo == (v % 0x1_0000_0000_0000_0000) as u64,
    ;
}

} // verus!

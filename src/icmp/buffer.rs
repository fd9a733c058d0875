use crate::dns::buffer::{be16, be32, be64};
use vstd::prelude::*;

verus! {

/// Ways in which an access to an ICMP `PacketBuffer` can fail.
#[derive(Debug, Clone, Copy, PartialEq, Eq, Structural)]
pub enum PacketBufferError {
    /// A seek to a position at or past the end of the bytes.
    PositionOutOfBounds(usize),
    /// A read that would run past the end of the bytes.
    EndOfBuffer,
    /// Bytes that are not valid UTF-8.
    Utf8ConversionError,
    /// A message type that the packet layout does not cover.
    UnknownMessageType(u8),
}

/// `b` with `v` put at `pos`: in place where `pos` lies inside, appended at
/// the end otherwise.
pub open spec fn put(b: Seq<u8>, pos: int, v: u8) -> Seq<u8> {
    if pos < b.len() {
        b.update(pos, v)
    } else {
        b.push(v)
    }
}

/// `b` with the bytes of `data` put one by one from `pos` on.
pub open spec fn put_all(b: Seq<u8>, pos: int, data: Seq<u8>) -> Seq<u8>
    decreases data.len(),
{
    if data.len() == 0 {
        b
    } else {
        put_all(put(b, pos, data[0]), pos + 1, data.drop_first())
    }
}

/// The 16-bit value stored big-endian at `p`.
pub open spec fn u16_at(b: Seq<u8>, p: int) -> u16 {
    (b[p] as int * 256 + b[p + 1] as int) as u16
}

/// The 32-bit value stored big-endian at `p`.
pub open spec fn u32_at(b: Seq<u8>, p: int) -> u32 {
    (u16_at(b, p) as int * 0x1_0000 + u16_at(b, p + 2) as int) as u32
}

/// The 64-bit value stored big-endian at `p`.
pub open spec fn u64_at(b: Seq<u8>, p: int) -> u64 {
    (u32_at(b, p) as int * 0x1_0000_0000 + u32_at(b, p + 4) as int) as u64
}

/// Putting `x` then `y` is putting `x + y`.
pub proof fn lemma_put_all_concat(b: Seq<u8>, pos: int, x: Seq<u8>, y: Seq<u8>)
    ensures
        put_all(put_all(b, pos, x), pos + x.len(), y) == put_all(b, pos, x + y),
    decreases x.len(),
{
    if x.len() == 0 {
        assert(x + y =~= y);
    } else {
        lemma_put_all_concat(put(b, pos, x[0]), pos + 1, x.drop_first(), y);
        assert((x + y).drop_first() =~= x.drop_first() + y);
        assert((x + y)[0] == x[0]);
    }
}

/// A growable byte store with a cursor, from which ICMP messages are read and
/// into which they are written.
pub struct PacketBuffer {
    pub buffer: Vec<u8>,
    pub pos: usize,
}

impl PacketBuffer {
    /// An empty buffer with the cursor at the start.
    pub fn new() -> (r: Self)
        ensures
            r.buffer@.len() == 0,
            r.pos == 0,
    {
        Self { buffer: Vec::new(), pos: 0 }
    }

    /// Moves the cursor to `pos`, which must lie inside the bytes.
    pub fn seek(&mut self, pos: usize) -> (r: Result<(), PacketBufferError>)
        ensures
            final(self).buffer@ == old(self).buffer@,
            pos < old(self).buffer@.len() ==> r is Ok && final(self).pos == pos,
            pos >= old(self).buffer@.len() ==> r == Err::<(), _>(
                PacketBufferError::PositionOutOfBounds(pos),
            ) && final(self).pos == old(self).pos,
    {
        if pos >= self.buffer.len() {
            return Err(PacketBufferError::PositionOutOfBounds(pos));
        }
        self.pos = pos;
        Ok(())
    }

    /// The byte at `pos`; the cursor does not move.
    pub fn get(&self, pos: usize) -> (r: Result<u8, PacketBufferError>)
        ensures
            pos < self.buffer@.len() ==> r == Ok::<u8, PacketBufferError>(self.buffer@[pos as int]),
            pos >= self.buffer@.len() ==> r == Err::<u8, _>(PacketBufferError::EndOfBuffer),
    {
        if pos >= self.buffer.len() {
            return Err(PacketBufferError::EndOfBuffer);
        }
        Ok(self.buffer[pos])
    }

    /// The `len` bytes from `pos` on; the cursor does not move.
    pub fn get_bytes(&self, pos: usize, len: usize) -> (r: Result<&[u8], PacketBufferError>)
        ensures
            pos + len <= self.buffer@.len() ==> r is Ok && r->Ok_0@ == self.buffer@.subrange(
                pos as int,
                pos + len,
            ),
            pos + len > self.buffer@.len() ==> r == Err::<&[u8], _>(PacketBufferError::EndOfBuffer),
    {
        if len > self.buffer.len() || pos > self.buffer.len() - len {
            return Err(PacketBufferError::EndOfBuffer);
        }
        Ok(vstd::slice::slice_subrange(self.buffer.as_slice(), pos, pos + len))
    }

    fn take8(&mut self) -> (r: u8)
        requires
            old(self).pos + 1 <= old(self).buffer@.len(),
        ensures
            final(self).pos == old(self).pos + 1,
            final(self).buffer@ == old(self).buffer@,
            r == old(self).buffer@[old(self).pos as int],
    {
        let r = self.buffer[self.pos];
        let n = self.buffer.len();
        assert(self.pos < n);
        self.pos = self.pos + 1;
        r
    }

    fn take16(&mut self) -> (r: u16)
        requires
            old(self).pos + 2 <= old(self).buffer@.len(),
        ensures
            final(self).pos == old(self).pos + 2,
            final(self).buffer@ == old(self).buffer@,
            r == u16_at(old(self).buffer@, old(self).pos as int),
    {
        let hi = self.take8();
        let lo = self.take8();
        hi as u16 * 256 + lo as u16
    }

    fn take32(&mut self) -> (r: u32)
        requires
            old(self).pos + 4 <= old(self).buffer@.len(),
        ensures
            final(self).pos == old(self).pos + 4,
            final(self).buffer@ == old(self).buffer@,
            r == u32_at(old(self).buffer@, old(self).pos as int),
    {
        let hi = self.take16();
        let lo = self.take16();
        hi as u32 * 0x1_0000 + lo as u32
    }

    /// Reads one byte at the cursor and moves past it.
    pub fn read(&mut self) -> (r: Result<u8, PacketBufferError>)
        ensures
            final(self).buffer@ == old(self).buffer@,
            old(self).pos + 1 <= old(self).buffer@.len() ==> r == Ok::<u8, PacketBufferError>(
                old(self).buffer@[old(self).pos as int],
            ) && final(self).pos == old(self).pos + 1,
            old(self).pos + 1 > old(self).buffer@.len() ==> r == Err::<u8, _>(
                PacketBufferError::EndOfBuffer,
            ) && final(self).pos == old(self).pos,
    {
        if self.pos >= self.buffer.len() {
            return Err(PacketBufferError::EndOfBuffer);
        }
        Ok(self.take8())
    }

    /// Reads a big-endian 16-bit integer at the cursor and moves past it.
    pub fn read_u16(&mut self) -> (r: Result<u16, PacketBufferError>)
        ensures
            final(self).buffer@ == old(self).buffer@,
            old(self).pos + 2 <= old(self).buffer@.len() ==> r == Ok::<u16, PacketBufferError>(
                u16_at(old(self).buffer@, old(self).pos as int),
            ) && final(self).pos == old(self).pos + 2,
            old(self).pos + 2 > old(self).buffer@.len() ==> r == Err::<u16, _>(
                PacketBufferError::EndOfBuffer,
            ) && final(self).pos == old(self).pos,
    {
        if self.pos >= self.buffer.len() || self.buffer.len() - self.pos < 2 {
            return Err(PacketBufferError::EndOfBuffer);
        }
        Ok(self.take16())
    }

    /// Reads a big-endian 32-bit integer at the cursor and moves past it.
    pub fn read_u32(&mut self) -> (r: Result<u32, PacketBufferError>)
        ensures
            final(self).buffer@ == old(self).buffer@,
            old(self).pos + 4 <= old(self).buffer@.len() ==> r == Ok::<u32, PacketBufferError>(
                u32_at(old(self).buffer@, old(self).pos as int),
            ) && final(self).pos == old(self).pos + 4,
            old(self).pos + 4 > old(self).buffer@.len() ==> r == Err::<u32, _>(
                PacketBufferError::EndOfBuffer,
            ) && final(self).pos == old(self).pos,
    {
        if self.pos >= self.buffer.len() || self.buffer.len() - self.pos < 4 {
            return Err(PacketBufferError::EndOfBuffer);
        }
        Ok(self.take32())
    }

    /// Reads a big-endian 64-bit integer at the cursor and moves past it.
    pub fn read_u64(&mut self) -> (r: Result<u64, PacketBufferError>)
        ensures
            final(self).buffer@ == old(self).buffer@,
            old(self).pos + 8 <= old(self).buffer@.len() ==> r == Ok::<u64, PacketBufferError>(
                u64_at(old(self).buffer@, old(self).pos as int),
            ) && final(self).pos == old(self).pos + 8,
            old(self).pos + 8 > old(self).buffer@.len() ==> r == Err::<u64, _>(
                PacketBufferError::EndOfBuffer,
            ) && final(self).pos == old(self).pos,
    {
        if self.pos >= self.buffer.len() || self.buffer.len() - self.pos < 8 {
            return Err(PacketBufferError::EndOfBuffer);
        }
        let hi = self.take32();
        let lo = self.take32();
        Ok(hi as u64 * 0x1_0000_0000 + lo as u64)
    }

    /// Reads `len` bytes at the cursor and moves past them.
    pub fn read_bytes(&mut self, len: usize) -> (r: Result<Vec<u8>, PacketBufferError>)
        ensures
            final(self).buffer@ == old(self).buffer@,
            old(self).pos + len <= old(self).buffer@.len() ==> r is Ok && r->Ok_0@ == old(
                self,
            ).buffer@.subrange(old(self).pos as int, old(self).pos + len) && final(self).pos == old(
                self,
            ).pos + len,
            old(self).pos + len > old(self).buffer@.len() ==> r == Err::<Vec<u8>, _>(
                PacketBufferError::EndOfBuffer,
            ) && final(self).pos == old(self).pos,
    {
        if len > self.buffer.len() || self.pos > self.buffer.len() - len {
            return Err(PacketBufferError::EndOfBuffer);
        }
        let out = vstd::slice::slice_to_vec(
            vstd::slice::slice_subrange(self.buffer.as_slice(), self.pos, self.pos + len),
        );
        self.pos = self.pos + len;
        Ok(out)
    }

    /// Writes one byte at the cursor, over the byte there or at the end, and
    /// moves past it.
    pub fn write(&mut self, value: u8) -> (r: Result<(), PacketBufferError>)
        requires
            old(self).pos < usize::MAX,
        ensures
            r is Ok,
            final(self).buffer@ == put(old(self).buffer@, old(self).pos as int, value),
            final(self).pos == old(self).pos + 1,
    {
        if self.pos < self.buffer.len() {
            self.buffer.set(self.pos, value);
        } else {
            self.buffer.push(value);
        }
        self.pos = self.pos + 1;
        Ok(())
    }

    /// Writes `bytes` at the cursor one by one and moves past them.
    pub fn write_bytes(&mut self, bytes: &[u8]) -> (r: Result<(), PacketBufferError>)
        requires
            old(self).pos + bytes@.len() < usize::MAX,
        ensures
            r is Ok,
            final(self).buffer@ == put_all(old(self).buffer@, old(self).pos as int, bytes@),
            final(self).pos == old(self).pos + bytes@.len(),
    {
        let ghost b0 = self.buffer@;
        let ghost p0 = self.pos as int;
        let mut i: usize = 0;
        assert(bytes@.subrange(0, 0) =~= Seq::<u8>::empty());
        while i < bytes.len()
            invariant
                0 <= i <= bytes@.len(),
                p0 + bytes@.len() < usize::MAX,
                self.pos == p0 + i,
                self.buffer@ == put_all(b0, p0, bytes@.subrange(0, i as int)),
            decreases bytes@.len() - i,
        {
            let ghost prev = self.buffer@;
            let _ = self.write(bytes[i]);
            proof {
                let one = seq![bytes@[i as int]];
                lemma_put_all_concat(b0, p0, bytes@.subrange(0, i as int), one);
                assert(bytes@.subrange(0, i as int) + one =~= bytes@.subrange(0, i + 1));
                assert(one.drop_first() =~= Seq::<u8>::empty());
                assert(one[0] == bytes@[i as int]);
                let after = put(prev, p0 + i, bytes@[i as int]);
                assert(put_all(after, p0 + i + 1, Seq::<u8>::empty()) == after);
                assert(put_all(prev, p0 + i, one) == put_all(after, p0 + i + 1, one.drop_first()));
                assert(put_all(prev, p0 + i, one) == after);
            }
            i = i + 1;
        }
        assert(bytes@.subrange(0, bytes@.len() as int) =~= bytes@);
        Ok(())
    }

    /// Writes a big-endian 16-bit integer at the cursor and moves past it.
    pub fn write_u16(&mut self, value: u16) -> (r: Result<(), PacketBufferError>)
        requires
            old(self).pos + 2 < usize::MAX,
        ensures
            r is Ok,
            final(self).buffer@ == put_all(old(self).buffer@, old(self).pos as int, be16(value)),
            final(self).pos == old(self).pos + 2,
    {
        let bytes: [u8; 2] = [(value / 256) as u8, (value % 256) as u8];
        let s = vstd::array::array_as_slice(&bytes);
        assert(s@ =~= be16(value));
        self.write_bytes(s)
    }

    /// Writes a big-endian 32-bit integer at the cursor and moves past it.
    pub fn write_u32(&mut self, value: u32) -> (r: Result<(), PacketBufferError>)
        requires
            old(self).pos + 4 < usize::MAX,
        ensures
            r is Ok,
            final(self).buffer@ == put_all(old(self).buffer@, old(self).pos as int, be32(value)),
            final(self).pos == old(self).pos + 4,
    {
        let ghost b0 = self.buffer@;
        let ghost p0 = self.pos as int;
        let _ = self.write_u16((value / 0x1_0000) as u16);
        let _ = self.write_u16((value % 0x1_0000) as u16);
        proof {
            lemma_put_all_concat(
                b0,
                p0,
                be16((value / 0x1_0000) as u16),
                be16((value % 0x1_0000) as u16),
            );
        }
        Ok(())
    }

    /// Writes a big-endian 64-bit integer at the cursor and moves past it.
    pub fn write_u64(&mut self, value: u64) -> (r: Result<(), PacketBufferError>)
        requires
            old(self).pos + 8 < usize::MAX,
        ensures
            r is Ok,
            final(self).buffer@ == put_all(old(self).buffer@, old(self).pos as int, be64(value)),
            final(self).pos == old(self).pos + 8,
    {
        let ghost b0 = self.buffer@;
        let ghost p0 = self.pos as int;
        let _ = self.write_u32((value / 0x1_0000_0000) as u32);
        let _ = self.write_u32((value % 0x1_0000_0000) as u32);
        proof {
            lemma_put_all_concat(
                b0,
                p0,
                be32((value / 0x1_0000_0000) as u32),
                be32((value % 0x1_0000_0000) as u32),
            );
        }
        Ok(())
    }
}

} // verus!

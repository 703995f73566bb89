//! A fixed-capacity byte buffer with a read position and bounds-checked reads.
use vstd::prelude::*;
use vstd::slice::slice_subrange;

verus! {

/// Capacity of a message buffer, in bytes.
pub const BUFFER_SIZE: usize = 512;

/// The ways in which decoding a message can fail.
#[derive(Clone, Copy, Debug, PartialEq, Eq, Structural)]
pub enum DnsError {
    /// A read, peek or range access reached past the end of the buffer.
    BufferOverrun,
    /// A domain name followed more compression pointers than allowed.
    CompressionLoop,
    /// The header declares more entries than the rest of the buffer can hold.
    TruncatedMessage,
}

/// Big-endian 16-bit value of the two bytes at `i`.
pub open spec fn u16_at(b: Seq<u8>, i: int) -> u16 {
    (b[i] as int * 0x100 + b[i + 1] as int) as u16
}

/// Big-endian 32-bit value of the four bytes at `i`.
pub open spec fn u32_at(b: Seq<u8>, i: int) -> u32 {
    (b[i] as int * 0x100_0000 + b[i + 1] as int * 0x1_0000 + b[i + 2] as int * 0x100
        + b[i + 3] as int) as u32
}

/// A message buffer together with the position of the next read.
pub struct BytePacketBuffer {
    pub buf: [u8; BUFFER_SIZE],
    pub pos: usize,
}

impl BytePacketBuffer {
    /// A buffer of zero bytes, positioned at its start.
    pub fn new() -> (r: BytePacketBuffer)
        ensures
            r.pos == 0,
            forall|i: int| 0 <= i < BUFFER_SIZE ==> r.buf@[i] == 0,
    {
        BytePacketBuffer { buf: [0u8; BUFFER_SIZE], pos: 0 }
    }

    /// The position of the next read.
    pub fn pos(&self) -> (r: usize)
        ensures
            r == self.pos,
    {
        self.pos
    }

    /// Moves the position forward by `steps` bytes without reading them.
    pub fn step(&mut self, steps: usize) -> (r: Result<(), DnsError>)
        ensures
            final(self).buf == old(self).buf,
            old(self).pos + steps <= BUFFER_SIZE ==> r is Ok && final(self).pos == old(self).pos
                + steps,
            old(self).pos + steps > BUFFER_SIZE ==> r == Err::<(), DnsError>(DnsError::BufferOverrun)
                && final(self).pos == old(self).pos,
    {
        if self.pos > BUFFER_SIZE || steps > BUFFER_SIZE - self.pos {
            return Err(DnsError::BufferOverrun);
        }
        self.pos = self.pos + steps;
        Ok(())
    }

    /// Sets the position to `pos`.
    pub fn seek(&mut self, pos: usize) -> (r: Result<(), DnsError>)
        ensures
            final(self).buf == old(self).buf,
            pos <= BUFFER_SIZE ==> r is Ok && final(self).pos == pos,
            pos > BUFFER_SIZE ==> r == Err::<(), DnsError>(DnsError::BufferOverrun)
                && final(self).pos == old(self).pos,
    {
        if pos > BUFFER_SIZE {
            return Err(DnsError::BufferOverrun);
        }
        self.pos = pos;
        Ok(())
    }

    /// Reads the byte at the position and moves past it.
    pub fn read(&mut self) -> (r: Result<u8, DnsError>)
        ensures
            final(self).buf == old(self).buf,
            old(self).pos < BUFFER_SIZE ==> r == Ok::<u8, DnsError>(old(self).buf@[old(self).pos as int])
                && final(self).pos == old(self).pos + 1,
            old(self).pos >= BUFFER_SIZE ==> r == Err::<u8, DnsError>(DnsError::BufferOverrun)
                && final(self).pos == old(self).pos,
    {
        if self.pos >= BUFFER_SIZE {
            return Err(DnsError::BufferOverrun);
        }
        let res = self.buf[self.pos];
        self.pos = self.pos + 1;
        Ok(res)
    }

    /// The byte at offset `pos`, without moving the read position.
    pub fn get(&self, pos: usize) -> (r: Result<u8, DnsError>)
        ensures
            pos < BUFFER_SIZE ==> r == Ok::<u8, DnsError>(self.buf@[pos as int]),
            pos >= BUFFER_SIZE ==> r == Err::<u8, DnsError>(DnsError::BufferOverrun),
    {
        if pos >= BUFFER_SIZE {
            return Err(DnsError::BufferOverrun);
        }
        Ok(self.buf[pos])
    }

    /// The `len` bytes from offset `start`, without moving the read position.
    pub fn get_range(&self, start: usize, len: usize) -> (r: Result<&[u8], DnsError>)
        ensures
            start + len <= BUFFER_SIZE ==> r is Ok && r->Ok_0@ == self.buf@.subrange(
                start as int,
                start + len,
            ),
            start + len > BUFFER_SIZE ==> r is Err && r->Err_0 == DnsError::BufferOverrun,
    {
        if start > BUFFER_SIZE || len > BUFFER_SIZE - start {
            return Err(DnsError::BufferOverrun);
        }
        Ok(slice_subrange(self.buf.as_slice(), start, start + len))
    }

    /// Reads a big-endian 16-bit value at the position and moves past it.
    pub fn read_u16(&mut self) -> (r: Result<u16, DnsError>)
        ensures
            final(self).buf == old(self).buf,
            old(self).pos + 2 <= BUFFER_SIZE ==> r == Ok::<u16, DnsError>(
                u16_at(old(self).buf@, old(self).pos as int),
            ) && final(self).pos == old(self).pos + 2,
            old(self).pos + 2 > BUFFER_SIZE ==> r == Err::<u16, DnsError>(DnsError::BufferOverrun),
    {
        let hi = self.read()?;
        let lo = self.read()?;
        let res = ((hi as u16) << 8) | (lo as u16);
        assert(((hi as u16) << 8) | (lo as u16) == (hi as int * 0x100 + lo as int) as u16)
            by (bit_vector);
        Ok(res)
    }

    /// Reads a big-endian 32-bit value at the position and moves past it.
    pub fn read_u32(&mut self) -> (r: Result<u32, DnsError>)
        ensures
            final(self).buf == old(self).buf,
            old(self).pos + 4 <= BUFFER_SIZE ==> r == Ok::<u32, DnsError>(
                u32_at(old(self).buf@, old(self).pos as int),
            ) && final(self).pos == old(self).pos + 4,
            old(self).pos + 4 > BUFFER_SIZE ==> r == Err::<u32, DnsError>(DnsError::BufferOverrun),
    {
        let b0 = self.read()?;
        let b1 = self.read()?;
        let b2 = self.read()?;
        let b3 = self.read()?;
        let res = ((b0 as u32) << 24) | ((b1 as u32) << 16) | ((b2 as u32) << 8) | (b3 as u32);
        assert(((b0 as u32) << 24) | ((b1 as u32) << 16) | ((b2 as u32) << 8) | (b3 as u32) == (
        b0 as int * 0x100_0000 + b1 as int * 0x1_0000 + b2 as int * 0x100 + b3 as int) as u32)
            by (bit_vector);
        Ok(res)
    }
}

} // verus!

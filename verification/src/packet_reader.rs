//! Reading and writing the integers of the wire format. Multi-byte integers
//! travel most significant byte first.

use vstd::prelude::*;
use crate::error::ProtocolError;

verus! {

/// A value read from the head of some input, and how many bytes it took.
pub struct Parsed<T> {
    pub value: T,
    pub consumed: nat,
}

/// The 16-bit number whose bytes on the wire are `hi`, `lo`.
pub open spec fn spec_u16_from_bytes(hi: u8, lo: u8) -> u16 {
    (hi as int * 256 + lo as int) as u16
}

/// The two bytes that carry `value`.
pub open spec fn spec_u16_bytes(value: u16) -> Seq<u8> {
    seq![(value as int / 256) as u8, (value as int % 256) as u8]
}

/// The unsigned number with the bits of `value`, in two's complement.
pub open spec fn spec_i16_bits(value: i16) -> u16 {
    if value >= 0 {
        value as u16
    } else {
        (value as int + 65536) as u16
    }
}

/// The signed number that the bits of `bits` stand for.
pub open spec fn spec_i16_from_bits(bits: u16) -> i16 {
    if bits < 32768 {
        bits as i16
    } else {
        (bits as int - 65536) as i16
    }
}

/// What reading a 16-bit number from the head of `bytes` gives.
pub open spec fn spec_read_u16(bytes: Seq<u8>) -> Result<u16, ProtocolError> {
    if bytes.len() < 2 {
        Err(ProtocolError::Truncated)
    } else {
        Ok(spec_u16_from_bytes(bytes[0], bytes[1]))
    }
}

/// Reading back the bytes of a number gives the number.
pub proof fn lemma_u16_round_trip(value: u16, rest: Seq<u8>)
    ensures
        spec_read_u16(spec_u16_bytes(value) + rest) == Ok::<u16, ProtocolError>(value),
        spec_u16_bytes(value).len() == 2,
        (spec_u16_bytes(value) + rest).skip(2) == rest,
{
    assert((spec_u16_bytes(value) + rest).skip(2) =~= rest);
}

/// The two bytes of a number give the number back, and a number has only
/// one pair of bytes.
pub proof fn lemma_u16_bytes(value: u16, other: u16)
    ensures
        spec_u16_from_bytes(spec_u16_bytes(value)[0], spec_u16_bytes(value)[1]) == value,
        spec_u16_bytes(value) == spec_u16_bytes(other) ==> value == other,
{
    if spec_u16_bytes(value) == spec_u16_bytes(other) {
        assert(spec_u16_bytes(value)[0] == spec_u16_bytes(other)[0]);
        assert(spec_u16_bytes(value)[1] == spec_u16_bytes(other)[1]);
    }
}

/// The first two bytes of an input are the bytes of the number that is read
/// from it.
pub proof fn lemma_u16_prefix(input: Seq<u8>)
    requires
        input.len() >= 2,
    ensures
        spec_u16_bytes(spec_u16_from_bytes(input[0], input[1])) == input.take(2),
{
    assert(spec_u16_bytes(spec_u16_from_bytes(input[0], input[1])) =~= input.take(2));
}

/// Signed numbers and their bits determine each other.
pub proof fn lemma_i16_bits(value: i16, other: i16, bits: u16)
    ensures
        spec_i16_from_bits(spec_i16_bits(value)) == value,
        spec_i16_bits(spec_i16_from_bits(bits)) == bits,
        spec_i16_bits(value) == spec_i16_bits(other) ==> value == other,
{
}

/// A cursor over the bytes of one incoming packet.
pub struct PacketReader<'a> {
    buffer: &'a [u8],
    cursor: usize,
}

impl<'a> PacketReader<'a> {
    /// The value is sound.
    pub closed spec fn wf(&self) -> bool {
        self.cursor <= self.buffer@.len()
    }

    /// The bytes that have not been read yet.
    pub closed spec fn remaining(&self) -> Seq<u8> {
        self.buffer@.skip(self.cursor as int)
    }

    /// All the bytes of the packet.
    pub closed spec fn bytes(&self) -> Seq<u8> {
        self.buffer@
    }

    /// How many bytes have been read.
    pub closed spec fn position(&self) -> nat {
        self.cursor as nat
    }

    /// The position and the unread bytes determine each other.
    pub proof fn lemma_remaining(&self)
        requires
            self.wf(),
        ensures
            self.remaining() == self.bytes().skip(self.position() as int),
            self.position() + self.remaining().len() == self.bytes().len(),
    {
    }

    /// A reader at the start of `buffer`.
    pub fn new(buffer: &'a [u8]) -> (reader: Self)
        ensures
            reader.wf(),
            reader.remaining() == buffer@,
            reader.bytes() == buffer@,
            reader.position() == 0,
    {
        let reader = PacketReader { buffer, cursor: 0 };
        assert(reader.remaining() =~= buffer@);
        reader
    }

    /// Whether any byte is left.
    pub fn has_more(&self) -> (more: bool)
        requires
            self.wf(),
        ensures
            more == (self.remaining().len() > 0),
    {
        self.cursor < self.buffer.len()
    }

    /// How many bytes have been read.
    pub fn get_cursor(&self) -> (cursor: usize)
        ensures
            cursor == self.position(),
    {
        self.cursor
    }

    /// How many bytes are left.
    pub fn remaining_len(&self) -> (n: usize)
        requires
            self.wf(),
        ensures
            n == self.remaining().len(),
    {
        self.buffer.len() - self.cursor
    }

    /// The byte at the cursor, which stays where it is; none at the end of
    /// the packet.
    pub fn peek_u8(&self) -> (r: Option<u8>)
        requires
            self.wf(),
        ensures
            r == (if self.remaining().len() > 0 {
                Some(self.remaining()[0])
            } else {
                None
            }),
    {
        if self.cursor < self.buffer.len() {
            Some(self.buffer[self.cursor])
        } else {
            None
        }
    }

    /// The 16-bit number at the cursor, which stays where it is.
    pub fn peek_u16(&self) -> (r: Result<u16, ProtocolError>)
        requires
            self.wf(),
        ensures
            r == spec_read_u16(self.remaining()),
    {
        if self.buffer.len() - self.cursor >= 2 {
            let hi = self.buffer[self.cursor];
            let lo = self.buffer[self.cursor + 1];
            Ok((hi as u16) * 256 + (lo as u16))
        } else {
            Err(ProtocolError::Truncated)
        }
    }

    /// Reads one byte. At the end of the packet nothing is consumed.
    pub fn read_u8(&mut self) -> (r: Result<u8, ProtocolError>)
        requires
            old(self).wf(),
        ensures
            final(self).wf(),
            final(self).bytes() == old(self).bytes(),
            match r {
                Ok(b) => old(self).remaining().len() >= 1 && b == old(self).remaining()[0]
                    && final(self).remaining() == old(self).remaining().skip(1),
                Err(e) => e == ProtocolError::Truncated && old(self).remaining().len() == 0
                    && final(self).remaining() == old(self).remaining(),
            },
    {
        if self.cursor < self.buffer.len() {
            let b = self.buffer[self.cursor];
            self.cursor = self.cursor + 1;
            assert(self.remaining() =~= old(self).remaining().skip(1));
            Ok(b)
        } else {
            Err(ProtocolError::Truncated)
        }
    }

    /// Reads a 16-bit number. If fewer than two bytes are left nothing is
    /// consumed.
    pub fn read_u16(&mut self) -> (r: Result<u16, ProtocolError>)
        requires
            old(self).wf(),
        ensures
            final(self).wf(),
            final(self).bytes() == old(self).bytes(),
            r == spec_read_u16(old(self).remaining()),
            final(self).remaining() == (if r is Ok {
                old(self).remaining().skip(2)
            } else {
                old(self).remaining()
            }),
    {
        if self.buffer.len() - self.cursor >= 2 {
            let hi = self.buffer[self.cursor];
            let lo = self.buffer[self.cursor + 1];
            self.cursor = self.cursor + 2;
            assert(self.remaining() =~= old(self).remaining().skip(2));
            Ok((hi as u16) * 256 + (lo as u16))
        } else {
            Err(ProtocolError::Truncated)
        }
    }

    /// Reads a signed 16-bit number, in two's complement.
    pub fn read_i16(&mut self) -> (r: Result<i16, ProtocolError>)
        requires
            old(self).wf(),
        ensures
            final(self).wf(),
            final(self).bytes() == old(self).bytes(),
            match r {
                Ok(v) => spec_read_u16(old(self).remaining()) == Ok::<u16, ProtocolError>(
                    spec_i16_bits(v),
                ) && final(self).remaining() == old(self).remaining().skip(2),
                Err(e) => e == ProtocolError::Truncated && old(self).remaining().len() < 2
                    && final(self).remaining() == old(self).remaining(),
            },
    {
        match self.read_u16() {
            Ok(bits) => {
                if bits < 32768 {
                    Ok(bits as i16)
                } else {
                    Ok((bits as i32 - 65536) as i16)
                }
            },
            Err(e) => Err(e),
        }
    }

    /// Reads `count` bytes. If fewer are left nothing is consumed.
    pub fn read_bytes(&mut self, count: usize) -> (r: Result<Vec<u8>, ProtocolError>)
        requires
            old(self).wf(),
        ensures
            final(self).wf(),
            final(self).bytes() == old(self).bytes(),
            match r {
                Ok(v) => old(self).remaining().len() >= count && v@ == old(
                    self,
                ).remaining().take(count as int) && final(self).remaining() == old(
                    self,
                ).remaining().skip(count as int),
                Err(e) => e == ProtocolError::Truncated && old(self).remaining().len() < count
                    && final(self).remaining() == old(self).remaining(),
            },
    {
        if self.buffer.len() - self.cursor < count {
            return Err(ProtocolError::Truncated);
        }
        let mut out: Vec<u8> = Vec::new();
        let start = self.cursor;
        assert(self.buffer@.len() == self.buffer.len());
        let mut i: usize = 0;
        while i < count
            invariant
                i <= count,
                start + count <= self.buffer@.len() <= usize::MAX,
                out@ == self.buffer@.subrange(start as int, start + i),
            decreases count - i,
        {
            out.push(self.buffer[start + i]);
            i = i + 1;
            assert(out@ =~= self.buffer@.subrange(start as int, start + i));
        }
        self.cursor = start + count;
        assert(out@ =~= old(self).remaining().take(count as int));
        assert(self.remaining() =~= old(self).remaining().skip(count as int));
        Ok(out)
    }
}

/// Appends one byte to an outgoing packet.
pub fn write_u8(out: &mut Vec<u8>, value: u8)
    ensures
        final(out)@ == old(out)@ + seq![value],
{
    out.push(value);
    assert(out@ =~= old(out)@ + seq![value]);
}

/// Appends a 16-bit number to an outgoing packet.
pub fn write_u16(out: &mut Vec<u8>, value: u16)
    ensures
        final(out)@ == old(out)@ + spec_u16_bytes(value),
{
    out.push((value / 256) as u8);
    out.push((value % 256) as u8);
    assert(out@ =~= old(out)@ + spec_u16_bytes(value));
}

/// Appends a signed 16-bit number, in two's complement.
pub fn write_i16(out: &mut Vec<u8>, value: i16)
    ensures
        final(out)@ == old(out)@ + spec_u16_bytes(spec_i16_bits(value)),
{
    if value >= 0 {
        write_u16(out, value as u16);
    } else {
        write_u16(out, (value as i32 + 65536) as u16);
    }
}

/// Appends `bytes` to an outgoing packet.
pub fn write_bytes(out: &mut Vec<u8>, bytes: &Vec<u8>)
    ensures
        final(out)@ == old(out)@ + bytes@,
{
    let mut i: usize = 0;
    while i < bytes.len()
        invariant
            i <= bytes@.len(),
            out@ == old(out)@ + bytes@.take(i as int),
        decreases bytes@.len() - i,
    {
        out.push(bytes[i]);
        i = i + 1;
        assert(out@ =~= old(out)@ + bytes@.take(i as int));
    }
    assert(bytes@.take(bytes@.len() as int) =~= bytes@);
}

} // verus!

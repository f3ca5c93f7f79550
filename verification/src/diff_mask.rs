//! The set of properties of one replica that have changed, one bit each.

use vstd::prelude::*;
use crate::error::ProtocolError;
use crate::packet_reader::{PacketReader, Parsed, write_bytes, write_u8};

verus! {

/// Whether bit `index` is set in `bytes`. Bits past the end are clear.
pub open spec fn spec_bit(bytes: Seq<u8>, index: nat) -> bool {
    index / 8 < bytes.len() && (bytes[index as int / 8] >> ((index % 8) as u8)) & 1u8 == 1u8
}

/// No bit is set.
pub open spec fn spec_is_clear(bytes: Seq<u8>) -> bool {
    forall|i: int| 0 <= i < bytes.len() ==> bytes[i] == 0
}

/// The union of two masks of one width; masks of different widths do not
/// merge, and the first is kept.
pub open spec fn spec_or(a: Seq<u8>, b: Seq<u8>) -> Seq<u8> {
    if a.len() == b.len() {
        Seq::new(a.len(), |i: int| a[i] | b[i])
    } else {
        a
    }
}

/// The bits of `a` that are not in `b`, for masks of one width; with
/// different widths `a` is kept.
pub open spec fn spec_and_not(a: Seq<u8>, b: Seq<u8>) -> Seq<u8> {
    if a.len() == b.len() {
        Seq::new(a.len(), |i: int| a[i] & !b[i])
    } else {
        a
    }
}

/// `bytes` with bit `index` set; unchanged if the bit is past the end.
pub open spec fn spec_set_bit(bytes: Seq<u8>, index: nat) -> Seq<u8> {
    if index / 8 < bytes.len() {
        bytes.update(index as int / 8, bytes[index as int / 8] | (1u8 << ((index % 8) as u8)))
    } else {
        bytes
    }
}

/// `bytes` with bit `index` cleared; unchanged if the bit is past the end.
pub open spec fn spec_clear_bit(bytes: Seq<u8>, index: nat) -> Seq<u8> {
    if index / 8 < bytes.len() {
        bytes.update(index as int / 8, bytes[index as int / 8] & !(1u8 << ((index % 8) as u8)))
    } else {
        bytes
    }
}

/// A mask on the wire: its length in bytes, then the bytes.
pub open spec fn spec_mask_wire(bytes: Seq<u8>) -> Seq<u8> {
    seq![bytes.len() as u8] + bytes
}

/// What reading a mask from the head of `input` gives: the mask and the
/// number of bytes it took.
pub open spec fn spec_read_mask(input: Seq<u8>) -> Result<Parsed<Seq<u8>>, ProtocolError> {
    if input.len() < 1 || input.len() < 1 + input[0] {
        Err(ProtocolError::Truncated)
    } else {
        Ok(Parsed { value: input.subrange(1, 1 + input[0]), consumed: (1 + input[0]) as nat })
    }
}

/// Setting a bit sets that bit and no other.
pub proof fn lemma_set_bit(bytes: Seq<u8>, index: nat, other: nat)
    requires
        index / 8 < bytes.len(),
    ensures
        spec_bit(spec_set_bit(bytes, index), other) == (other == index || spec_bit(
            bytes,
            other,
        )),
{
    let k = (index % 8) as u8;
    let j = (other % 8) as u8;
    if other / 8 == index / 8 {
        let b = bytes[index as int / 8];
        assert(((b | (1u8 << k)) >> j) & 1u8 == (if j == k {
            1u8
        } else {
            (b >> j) & 1u8
        })) by (bit_vector)
            requires
                k < 8,
                j < 8,
        ;
    }
}

/// Clearing a bit clears that bit and no other.
pub proof fn lemma_clear_bit(bytes: Seq<u8>, index: nat, other: nat)
    requires
        index / 8 < bytes.len(),
    ensures
        spec_bit(spec_clear_bit(bytes, index), other) == (other != index && spec_bit(
            bytes,
            other,
        )),
{
    let k = (index % 8) as u8;
    let j = (other % 8) as u8;
    if other / 8 == index / 8 {
        let b = bytes[index as int / 8];
        assert(((b & !(1u8 << k)) >> j) & 1u8 == (if j == k {
            0u8
        } else {
            (b >> j) & 1u8
        })) by (bit_vector)
            requires
                k < 8,
                j < 8,
        ;
    }
}

/// A bit is in the union of two masks of one width exactly if it is in one
/// of them.
pub proof fn lemma_or_bit(a: Seq<u8>, b: Seq<u8>, index: nat)
    requires
        a.len() == b.len(),
    ensures
        spec_bit(spec_or(a, b), index) == (spec_bit(a, index) || spec_bit(b, index)),
{
    if index / 8 < a.len() {
        let x = a[index as int / 8];
        let y = b[index as int / 8];
        let j = (index % 8) as u8;
        assert((((x | y) >> j) & 1u8 == 1u8) == (((x >> j) & 1u8 == 1u8) || ((y >> j) & 1u8
            == 1u8))) by (bit_vector)
            requires
                j < 8,
        ;
    }
}

/// A bit survives `spec_and_not` exactly if it is in the first mask and not
/// in the second.
pub proof fn lemma_and_not_bit(a: Seq<u8>, b: Seq<u8>, index: nat)
    requires
        a.len() == b.len(),
    ensures
        spec_bit(spec_and_not(a, b), index) == (spec_bit(a, index) && !spec_bit(b, index)),
{
    if index / 8 < a.len() {
        let x = a[index as int / 8];
        let y = b[index as int / 8];
        let j = (index % 8) as u8;
        assert((((x & !y) >> j) & 1u8 == 1u8) == (((x >> j) & 1u8 == 1u8) && !((y >> j) & 1u8
            == 1u8))) by (bit_vector)
            requires
                j < 8,
        ;
    }
}

/// A mask is clear exactly if none of its bits is set.
pub proof fn lemma_clear_no_bit(bytes: Seq<u8>)
    ensures
        spec_is_clear(bytes) <==> (forall|index: nat| !spec_bit(bytes, index)),
{
    if spec_is_clear(bytes) {
        assert forall|index: nat| !spec_bit(bytes, index) by {
            if index / 8 < bytes.len() {
                let j = (index % 8) as u8;
                assert((0u8 >> j) & 1u8 == 0u8) by (bit_vector);
            }
        }
    }
    if forall|index: nat| !spec_bit(bytes, index) {
        assert forall|i: int| 0 <= i < bytes.len() implies bytes[i] == 0 by {
            let x = bytes[i];
            assert((x >> 0u8) & 1u8 != 1u8) by {
                let index = (i * 8 + 0) as nat;
                assert(index / 8 == i && index % 8 == 0);
                assert(!spec_bit(bytes, index));
            }
            assert((x >> 1u8) & 1u8 != 1u8) by {
                let index = (i * 8 + 1) as nat;
                assert(index / 8 == i && index % 8 == 1);
                assert(!spec_bit(bytes, index));
            }
            assert((x >> 2u8) & 1u8 != 1u8) by {
                let index = (i * 8 + 2) as nat;
                assert(index / 8 == i && index % 8 == 2);
                assert(!spec_bit(bytes, index));
            }
            assert((x >> 3u8) & 1u8 != 1u8) by {
                let index = (i * 8 + 3) as nat;
                assert(index / 8 == i && index % 8 == 3);
                assert(!spec_bit(bytes, index));
            }
            assert((x >> 4u8) & 1u8 != 1u8) by {
                let index = (i * 8 + 4) as nat;
                assert(index / 8 == i && index % 8 == 4);
                assert(!spec_bit(bytes, index));
            }
            assert((x >> 5u8) & 1u8 != 1u8) by {
                let index = (i * 8 + 5) as nat;
                assert(index / 8 == i && index % 8 == 5);
                assert(!spec_bit(bytes, index));
            }
            assert((x >> 6u8) & 1u8 != 1u8) by {
                let index = (i * 8 + 6) as nat;
                assert(index / 8 == i && index % 8 == 6);
                assert(!spec_bit(bytes, index));
            }
            assert((x >> 7u8) & 1u8 != 1u8) by {
                let index = (i * 8 + 7) as nat;
                assert(index / 8 == i && index % 8 == 7);
                assert(!spec_bit(bytes, index));
            }
            assert(x == 0) by (bit_vector)
                requires
                    (x >> 0u8) & 1u8 != 1u8,
                    (x >> 1u8) & 1u8 != 1u8,
                    (x >> 2u8) & 1u8 != 1u8,
                    (x >> 3u8) & 1u8 != 1u8,
                    (x >> 4u8) & 1u8 != 1u8,
                    (x >> 5u8) & 1u8 != 1u8,
                    (x >> 6u8) & 1u8 != 1u8,
                    (x >> 7u8) & 1u8 != 1u8,
            ;
        }
    }
}

/// Merging masks of one width does not depend on the order of the two.
pub proof fn lemma_or_commutative(a: Seq<u8>, b: Seq<u8>)
    requires
        a.len() == b.len(),
    ensures
        spec_or(a, b) == spec_or(b, a),
{
    assert forall|i: int| 0 <= i < a.len() implies (a[i] | b[i]) == (b[i] | a[i]) by {
        let x = a[i];
        let y = b[i];
        assert(x | y == y | x) by (bit_vector);
    }
    assert(spec_or(a, b) =~= spec_or(b, a));
}

/// Merging masks of one width does not depend on how they are grouped.
pub proof fn lemma_or_associative(a: Seq<u8>, b: Seq<u8>, c: Seq<u8>)
    requires
        a.len() == b.len(),
        b.len() == c.len(),
    ensures
        spec_or(spec_or(a, b), c) == spec_or(a, spec_or(b, c)),
{
    assert forall|i: int| 0 <= i < a.len() implies ((a[i] | b[i]) | c[i]) == (a[i] | (b[i]
        | c[i])) by {
        let x = a[i];
        let y = b[i];
        let z = c[i];
        assert((x | y) | z == x | (y | z)) by (bit_vector);
    }
    assert(spec_or(spec_or(a, b), c) =~= spec_or(a, spec_or(b, c)));
}

/// Merging a mask into itself, or a clear mask into it, changes nothing.
pub proof fn lemma_or_idempotent(a: Seq<u8>, zero: Seq<u8>)
    requires
        a.len() == zero.len(),
        spec_is_clear(zero),
    ensures
        spec_or(a, a) == a,
        spec_or(a, zero) == a,
{
    assert forall|i: int| 0 <= i < a.len() implies (a[i] | a[i]) == a[i] && (a[i] | zero[i])
        == a[i] by {
        let x = a[i];
        assert(x | x == x) by (bit_vector);
        assert(x | 0u8 == x) by (bit_vector);
    }
    assert(spec_or(a, a) =~= a);
    assert(spec_or(a, zero) =~= a);
}

/// Taking a mask out and merging it back in restores every bit that was set.
pub proof fn lemma_and_not_then_or(a: Seq<u8>, b: Seq<u8>)
    requires
        a.len() == b.len(),
    ensures
        spec_or(spec_and_not(a, b), b) == spec_or(a, b),
        spec_is_clear(spec_and_not(a, a)),
{
    assert forall|i: int| 0 <= i < a.len() implies ((a[i] & !b[i]) | b[i]) == (a[i] | b[i])
        && (a[i] & !a[i]) == 0 by {
        let x = a[i];
        let y = b[i];
        assert((x & !y) | y == x | y) by (bit_vector);
        assert(x & !x == 0u8) by (bit_vector);
    }
    assert(spec_or(spec_and_not(a, b), b) =~= spec_or(a, b));
}

/// Reading back a written mask gives the mask.
pub proof fn lemma_mask_round_trip(bytes: Seq<u8>, rest: Seq<u8>)
    requires
        bytes.len() <= 255,
    ensures
        spec_read_mask(spec_mask_wire(bytes) + rest) == Ok::<Parsed<Seq<u8>>, ProtocolError>(
            Parsed { value: bytes, consumed: (1 + bytes.len()) as nat },
        ),
        (spec_mask_wire(bytes) + rest).skip(1 + bytes.len() as int) == rest,
{
    let input = spec_mask_wire(bytes) + rest;
    assert(input[0] == bytes.len());
    assert(input.subrange(1, 1 + input[0]) =~= bytes);
    assert(input.skip(1 + bytes.len() as int) =~= rest);
}

/// A bit per property of a replica: set where the property has changed and
/// the change has not been sent yet.
pub struct DiffMask {
    mask: Vec<u8>,
}

impl DiffMask {
    /// The bytes of the mask; bit `i` lives in byte `i / 8`, at place `i % 8`.
    pub closed spec fn view(&self) -> Seq<u8> {
        self.mask@
    }

    /// A mask has at most 255 bytes.
    pub closed spec fn wf(&self) -> bool {
        self.mask@.len() <= 255
    }

    /// A clear mask of `bytes` bytes.
    pub fn new(bytes: u8) -> (mask: Self)
        ensures
            mask.wf(),
            mask@.len() == bytes,
            spec_is_clear(mask@),
    {
        let mut mask: Vec<u8> = Vec::new();
        let mut i: u8 = 0;
        while i < bytes
            invariant
                i <= bytes,
                mask@.len() == i,
                forall|j: int| 0 <= j < i ==> mask@[j] == 0,
            decreases bytes - i,
        {
            mask.push(0);
            i = i + 1;
        }
        DiffMask { mask }
    }

    /// The number of bytes.
    pub fn byte_number(&self) -> (n: u8)
        requires
            self.wf(),
        ensures
            n == self@.len(),
    {
        self.mask.len() as u8
    }

    /// One byte of the mask; 0 past its end.
    pub fn get_byte(&self, index: usize) -> (b: u8)
        ensures
            b == (if index < self@.len() {
                self@[index as int]
            } else {
                0u8
            }),
    {
        if index < self.mask.len() {
            self.mask[index]
        } else {
            0
        }
    }

    /// Whether bit `index` is set. A bit past the end is clear.
    pub fn get_bit(&self, index: u8) -> (set: bool)
        ensures
            set == spec_bit(self@, index as nat),
    {
        let byte = (index / 8) as usize;
        if byte < self.mask.len() {
            (self.mask[byte] >> (index % 8)) & 1 == 1
        } else {
            false
        }
    }

    /// Sets bit `index`. A bit past the end is ignored.
    pub fn set_bit(&mut self, index: u8)
        ensures
            final(self)@ == spec_set_bit(old(self)@, index as nat),
            final(self).wf() == old(self).wf(),
    {
        let byte = (index / 8) as usize;
        if byte < self.mask.len() {
            let b = self.mask[byte];
            self.mask[byte] = b | (1u8 << (index % 8));
            assert(self@ =~= spec_set_bit(old(self)@, index as nat));
        }
    }

    /// Clears bit `index`. A bit past the end is ignored.
    pub fn clear_bit(&mut self, index: u8)
        ensures
            final(self)@ == spec_clear_bit(old(self)@, index as nat),
            final(self).wf() == old(self).wf(),
    {
        let byte = (index / 8) as usize;
        if byte < self.mask.len() {
            let b = self.mask[byte];
            self.mask[byte] = b & !(1u8 << (index % 8));
            assert(self@ =~= spec_clear_bit(old(self)@, index as nat));
        }
    }

    /// Clears every bit.
    pub fn clear(&mut self)
        ensures
            final(self)@.len() == old(self)@.len(),
            spec_is_clear(final(self)@),
            final(self).wf() == old(self).wf(),
    {
        let n = self.mask.len();
        let mut i: usize = 0;
        while i < n
            invariant
                i <= n,
                n == self.mask@.len(),
                n == old(self).mask@.len(),
                forall|j: int| 0 <= j < i ==> self.mask@[j] == 0,
            decreases n - i,
        {
            self.mask[i] = 0;
            i = i + 1;
        }
    }

    /// Whether no bit is set.
    pub fn is_clear(&self) -> (clear: bool)
        ensures
            clear == spec_is_clear(self@),
    {
        let mut i: usize = 0;
        while i < self.mask.len()
            invariant
                i <= self.mask@.len(),
                forall|j: int| 0 <= j < i ==> self.mask@[j] == 0,
            decreases self.mask@.len() - i,
        {
            if self.mask[i] != 0 {
                return false;
            }
            i = i + 1;
        }
        true
    }

    /// Adds the bits of `other`, a mask of the same width, to this one. A mask
    /// of another width is ignored.
    pub fn or_with(&mut self, other: &DiffMask)
        ensures
            final(self)@ == spec_or(old(self)@, other@),
            final(self).wf() == old(self).wf(),
    {
        if self.mask.len() != other.mask.len() {
            return ;
        }
        let n = self.mask.len();
        let mut i: usize = 0;
        while i < n
            invariant
                i <= n,
                n == self.mask@.len(),
                n == old(self).mask@.len(),
                n == other.mask@.len(),
                forall|j: int| 0 <= j < i ==> self.mask@[j] == old(self).mask@[j] | other.mask@[j],
                forall|j: int| i <= j < n ==> self.mask@[j] == old(self).mask@[j],
            decreases n - i,
        {
            let b = self.mask[i];
            self.mask[i] = b | other.mask[i];
            i = i + 1;
        }
        assert(self@ =~= spec_or(old(self)@, other@));
    }

    /// Takes the bits of `other`, a mask of the same width, out of this one.
    /// A mask of another width is ignored.
    pub fn clear_bits_in(&mut self, other: &DiffMask)
        ensures
            final(self)@ == spec_and_not(old(self)@, other@),
            final(self).wf() == old(self).wf(),
    {
        if self.mask.len() != other.mask.len() {
            return ;
        }
        let n = self.mask.len();
        let mut i: usize = 0;
        while i < n
            invariant
                i <= n,
                n == self.mask@.len(),
                n == old(self).mask@.len(),
                n == other.mask@.len(),
                forall|j: int|
                    0 <= j < i ==> self.mask@[j] == old(self).mask@[j] & !other.mask@[j],
                forall|j: int| i <= j < n ==> self.mask@[j] == old(self).mask@[j],
            decreases n - i,
        {
            let b = self.mask[i];
            self.mask[i] = b & !other.mask[i];
            i = i + 1;
        }
        assert(self@ =~= spec_and_not(old(self)@, other@));
    }

    /// Makes this mask equal to `other`, whatever its width was.
    pub fn copy_from(&mut self, other: &DiffMask)
        ensures
            final(self)@ == other@,
            final(self).wf() == other.wf(),
    {
        self.mask = other.duplicate().mask;
    }

    /// A mask with the same bits.
    pub fn duplicate(&self) -> (copy: Self)
        ensures
            copy@ == self@,
            copy.wf() == self.wf(),
    {
        let mut mask: Vec<u8> = Vec::new();
        let mut i: usize = 0;
        while i < self.mask.len()
            invariant
                i <= self.mask@.len(),
                mask@ == self.mask@.take(i as int),
            decreases self.mask@.len() - i,
        {
            mask.push(self.mask[i]);
            i = i + 1;
            assert(mask@ =~= self.mask@.take(i as int));
        }
        assert(self.mask@.take(self.mask@.len() as int) =~= self.mask@);
        DiffMask { mask }
    }

    /// Appends the mask to an outgoing packet: its length, then its bytes.
    pub fn write(&self, out: &mut Vec<u8>)
        requires
            self.wf(),
        ensures
            final(out)@ == old(out)@ + spec_mask_wire(self@),
    {
        write_u8(out, self.mask.len() as u8);
        write_bytes(out, &self.mask);
        assert(out@ =~= old(out)@ + spec_mask_wire(self@));
    }

    /// Reads a mask from an incoming packet.
    pub fn read(reader: &mut PacketReader) -> (r: Result<Self, ProtocolError>)
        requires
            old(reader).wf(),
        ensures
            final(reader).wf(),
            final(reader).bytes() == old(reader).bytes(),
            match r {
                Ok(mask) => mask.wf() && spec_read_mask(old(reader).remaining()) == Ok::<
                    Parsed<Seq<u8>>,
                    ProtocolError,
                >(Parsed { value: mask@, consumed: (mask@.len() + 1) as nat })
                    && final(reader).remaining() == old(reader).remaining().skip(
                    mask@.len() as int + 1,
                ),
                Err(e) => spec_read_mask(old(reader).remaining()) == Err::<
                    Parsed<Seq<u8>>,
                    ProtocolError,
                >(e),
            },
    {
        let n = reader.read_u8()?;
        let mask = reader.read_bytes(n as usize)?;
        proof {
            let input = old(reader).remaining();
            assert(input.skip(1).take(n as int) =~= input.subrange(1, 1 + n));
            assert(input.skip(1).skip(n as int) =~= input.skip(1 + n));
        }
        Ok(DiffMask { mask })
    }
}

} // verus!

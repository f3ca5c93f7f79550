//! Text as a property: a run of bytes behind its length. A text property
//! carries at most 65535 bytes; what a longer text has beyond that is not
//! part of the property.

use vstd::prelude::*;
use crate::error::ProtocolError;
use crate::packet_reader::{
    PacketReader, lemma_u16_prefix, lemma_u16_round_trip, spec_read_u16, spec_u16_bytes,
    write_u16,
};

verus! {

/// How many bytes of a text are part of the property.
pub open spec fn spec_text_len(bytes: Seq<u8>) -> nat {
    if bytes.len() > 65535 {
        65535
    } else {
        bytes.len()
    }
}

/// The bytes of a text that are part of the property.
pub open spec fn spec_text_body(bytes: Seq<u8>) -> Seq<u8> {
    bytes.take(spec_text_len(bytes) as int)
}

/// The encoding of a text: its length in two bytes, then its bytes.
pub open spec fn spec_text(bytes: Seq<u8>) -> Seq<u8> {
    spec_u16_bytes(spec_text_len(bytes) as u16) + spec_text_body(bytes)
}

/// The length of the encoding of a text that stands at the head of `input`.
pub open spec fn spec_text_prop_len(input: Seq<u8>) -> Result<nat, ProtocolError> {
    match spec_read_u16(input) {
        Err(e) => Err(e),
        Ok(n) => if input.len() < 2 + n {
            Err(ProtocolError::Truncated)
        } else {
            Ok((2 + n) as nat)
        },
    }
}

/// A text is read back whole from any input that starts with its encoding,
/// and texts with one encoding have the same bytes in the property.
pub proof fn lemma_text(bytes: Seq<u8>, other: Seq<u8>, rest: Seq<u8>)
    ensures
        spec_text(bytes).len() == 2 + spec_text_len(bytes),
        spec_text_prop_len(spec_text(bytes) + rest) == Ok::<nat, ProtocolError>(
            spec_text(bytes).len(),
        ),
        spec_text(bytes) == spec_text(other) <==> spec_text_body(bytes) == spec_text_body(other),
{
    let n = spec_text_len(bytes) as u16;
    lemma_u16_round_trip(n, spec_text_body(bytes) + rest);
    assert(spec_text(bytes) + rest =~= spec_u16_bytes(n) + (spec_text_body(bytes) + rest));
    if spec_text(bytes) == spec_text(other) {
        let m = spec_text_len(other) as u16;
        assert(spec_text(bytes).len() == spec_text(other).len());
        assert(spec_text(bytes).skip(2) =~= spec_text_body(bytes));
        assert(spec_text(other).skip(2) =~= spec_text_body(other));
    }
    if spec_text_body(bytes) == spec_text_body(other) {
        assert(spec_text_body(bytes).len() == spec_text_body(other).len());
    }
}

/// The head of an input from which a text can be read is the encoding of
/// the text that is read.
pub proof fn lemma_text_prefix(input: Seq<u8>)
    requires
        spec_text_prop_len(input) is Ok,
    ensures
        ({
            let n = spec_text_prop_len(input)->Ok_0;
            let body = input.subrange(2, n as int);
            &&& 2 <= n <= input.len()
            &&& body.len() <= 65535
            &&& spec_text(body) == input.take(n as int)
        }),
{
    let n = spec_text_prop_len(input)->Ok_0;
    let body = input.subrange(2, n as int);
    lemma_u16_prefix(input);
    assert(spec_text_body(body) =~= body);
    assert(spec_text(body) =~= input.take(n as int));
}

/// Appends the encoding of a text.
pub fn write_text(out: &mut Vec<u8>, text: &Vec<u8>)
    ensures
        final(out)@ == old(out)@ + spec_text(text@),
{
    let n: usize = if text.len() > 65535 {
        65535
    } else {
        text.len()
    };
    write_u16(out, n as u16);
    let ghost head = out@;
    let mut i: usize = 0;
    while i < n
        invariant
            i <= n,
            n <= text@.len(),
            out@ == head + text@.take(i as int),
        decreases n - i,
    {
        out.push(text[i]);
        i = i + 1;
        assert(out@ =~= head + text@.take(i as int));
    }
    assert(out@ =~= old(out)@ + spec_text(text@));
}

/// Reads a text. If the packet is at fault nothing is consumed.
pub fn read_text(reader: &mut PacketReader) -> (r: Result<Vec<u8>, ProtocolError>)
    requires
        old(reader).wf(),
    ensures
        final(reader).wf(),
        final(reader).bytes() == old(reader).bytes(),
        match r {
            Ok(text) => spec_text_prop_len(old(reader).remaining()) == Ok::<nat, ProtocolError>(
                (2 + text@.len()) as nat,
            ) && text@.len() <= 65535 && spec_text(text@) == old(reader).remaining().take(
                2 + text@.len() as int,
            ) && final(reader).remaining() == old(reader).remaining().skip(
                2 + text@.len() as int,
            ),
            Err(e) => spec_text_prop_len(old(reader).remaining()) == Err::<nat, ProtocolError>(e)
                && final(reader).remaining() == old(reader).remaining(),
        },
{
    let ghost input = reader.remaining();
    let n = reader.peek_u16()?;
    if reader.remaining_len() - 2 < n as usize {
        return Err(ProtocolError::Truncated);
    }
    let _ = reader.read_u16();
    match reader.read_bytes(n as usize) {
        Ok(text) => {
            proof {
                lemma_text_prefix(input);
                assert(input.skip(2).take(n as int) =~= input.subrange(2, 2 + n));
                assert(input.skip(2).skip(n as int) =~= input.skip(2 + n));
            }
            Ok(text)
        },
        Err(e) => Err(e),
    }
}

/// Whether two texts are equal as properties.
pub fn text_equals(a: &Vec<u8>, b: &Vec<u8>) -> (equal: bool)
    ensures
        equal == (spec_text(a@) == spec_text(b@)),
{
    proof {
        lemma_text(a@, b@, Seq::empty());
    }
    let n: usize = if a.len() > 65535 {
        65535
    } else {
        a.len()
    };
    let m: usize = if b.len() > 65535 {
        65535
    } else {
        b.len()
    };
    if n != m {
        return false;
    }
    let mut i: usize = 0;
    while i < n
        invariant
            i <= n,
            n == spec_text_len(a@),
            n == spec_text_len(b@),
            (spec_text(a@) == spec_text(b@)) <==> (spec_text_body(a@) == spec_text_body(b@)),
            forall|k: int| 0 <= k < i ==> a@[k] == b@[k],
        decreases n - i,
    {
        if a[i] != b[i] {
            assert(spec_text_body(a@)[i as int] != spec_text_body(b@)[i as int]);
            return false;
        }
        i = i + 1;
    }
    assert(spec_text_body(a@) =~= spec_text_body(b@));
    true
}

/// A text with the same bytes.
pub fn text_copy(text: &Vec<u8>) -> (copy: Vec<u8>)
    ensures
        copy@ == text@,
{
    let mut copy: Vec<u8> = Vec::new();
    let mut i: usize = 0;
    while i < text.len()
        invariant
            i <= text@.len(),
            copy@ == text@.take(i as int),
        decreases text@.len() - i,
    {
        copy.push(text[i]);
        i = i + 1;
        assert(copy@ =~= text@.take(i as int));
    }
    assert(text@.take(text@.len() as int) =~= text@);
    copy
}

} // verus!

//! A small protocol: a position on a grid that a player moves with four
//! keys, what a user asks to be let in with, and a line of text.

use vstd::prelude::*;
use crate::diff_mask::{DiffMask, lemma_set_bit, spec_bit, lemma_clear_no_bit};
use crate::error::ProtocolError;
use crate::messages::{Auth, StringMessage};
use crate::packet_reader::Parsed;
use crate::packet_reader::{
    PacketReader, lemma_i16_bits, lemma_u16_bytes, lemma_u16_prefix, spec_i16_bits,
    spec_u16_bytes, write_i16, write_u8,
};
use crate::property::Property;
use crate::protocol_type::{ProtocolExtract, ProtocolInserter, ProtocolKindType, ProtocolType};
use crate::replicate::{EventClone, Replicate, ReplicateEq};
use crate::wire::{
    ReplicaView, spec_is_diff, spec_mask_size, spec_read_full, spec_read_partial, spec_prepend,
    spec_read_partial_from, spec_read_props, spec_well_formed, spec_write, spec_write_from,
    spec_write_partial, spec_write_partial_from,
};

verus! {

/// The kinds of replica of this protocol.
#[derive(Clone, Copy, Debug, PartialEq, Eq, Structural)]
pub enum ProtocolKind {
    /// Where an entity stands.
    Position,
    /// The keys a player holds down during one tick.
    KeyCommand,
    /// What a user asks to be let in with.
    Auth,
    /// A line of text.
    StringMessage,
}

/// The number of the kind `Position` on the wire.
pub const POSITION_KIND: u16 = 0;

/// The number of the kind `KeyCommand` on the wire.
pub const KEY_COMMAND_KIND: u16 = 1;

/// The number of the kind `Auth` on the wire.
pub const AUTH_KIND: u16 = 2;

/// The number of the kind `StringMessage` on the wire.
pub const STRING_MESSAGE_KIND: u16 = 3;

/// The byte that carries a truth value.
pub open spec fn spec_bool_byte(value: bool) -> u8 {
    if value {
        1u8
    } else {
        0u8
    }
}

impl ProtocolKindType for ProtocolKind {
    open spec fn spec_to_u16(&self) -> u16 {
        match self {
            ProtocolKind::Position => POSITION_KIND,
            ProtocolKind::KeyCommand => KEY_COMMAND_KIND,
            ProtocolKind::Auth => AUTH_KIND,
            ProtocolKind::StringMessage => STRING_MESSAGE_KIND,
        }
    }

    open spec fn spec_from_u16(val: u16) -> Option<Self> {
        if val == POSITION_KIND {
            Some(ProtocolKind::Position)
        } else if val == KEY_COMMAND_KIND {
            Some(ProtocolKind::KeyCommand)
        } else if val == AUTH_KIND {
            Some(ProtocolKind::Auth)
        } else if val == STRING_MESSAGE_KIND {
            Some(ProtocolKind::StringMessage)
        } else {
            None
        }
    }

    open spec fn spec_property_count(&self) -> nat {
        match self {
            ProtocolKind::Position => 2,
            ProtocolKind::KeyCommand => 4,
            ProtocolKind::Auth => 2,
            ProtocolKind::StringMessage => 1,
        }
    }

    /// A coordinate takes two bytes; a key takes one byte, 0 or 1; a text
    /// takes two bytes for its length and then as many as that says.
    open spec fn spec_property_len(&self, index: nat, input: Seq<u8>) -> Result<
        nat,
        ProtocolError,
    > {
        match self {
            ProtocolKind::Position => if input.len() < 2 {
                Err(ProtocolError::Truncated)
            } else {
                Ok(2)
            },
            ProtocolKind::KeyCommand => if input.len() < 1 {
                Err(ProtocolError::Truncated)
            } else if input[0] > 1 {
                Err(ProtocolError::InvalidValue)
            } else {
                Ok(1)
            },
            ProtocolKind::Auth => crate::text::spec_text_prop_len(input),
            ProtocolKind::StringMessage => crate::text::spec_text_prop_len(input),
        }
    }

    proof fn lemma_kind_number(val: u16, kind: Self) {
    }

    fn to_u16(&self) -> (val: u16) {
        match self {
            ProtocolKind::Position => POSITION_KIND,
            ProtocolKind::KeyCommand => KEY_COMMAND_KIND,
            ProtocolKind::Auth => AUTH_KIND,
            ProtocolKind::StringMessage => STRING_MESSAGE_KIND,
        }
    }

    fn from_u16(val: u16) -> (kind: Option<Self>) {
        if val == POSITION_KIND {
            Some(ProtocolKind::Position)
        } else if val == KEY_COMMAND_KIND {
            Some(ProtocolKind::KeyCommand)
        } else if val == AUTH_KIND {
            Some(ProtocolKind::Auth)
        } else if val == STRING_MESSAGE_KIND {
            Some(ProtocolKind::StringMessage)
        } else {
            None
        }
    }
}

/// The properties of a position with the given coordinates.
pub open spec fn spec_position_props(x: i16, y: i16) -> Seq<Seq<u8>> {
    seq![spec_u16_bytes(spec_i16_bits(x)), spec_u16_bytes(spec_i16_bits(y))]
}

/// Where an entity stands.
pub struct Position {
    pub x: Property<i16>,
    pub y: Property<i16>,
}

impl Position {
    /// The kind and the property encodings of this replica.
    pub open spec fn view(&self) -> ReplicaView {
        ReplicaView { kind: POSITION_KIND, props: spec_position_props(self.x@, self.y@) }
    }

    /// Positions with the same properties have the same coordinates.
    pub proof fn lemma_coordinates(&self, other: &Position)
        ensures
            self@ == other@ <==> (self.x@ == other.x@ && self.y@ == other.y@),
            self@.props[0] == other@.props[0] <==> self.x@ == other.x@,
            self@.props[1] == other@.props[1] <==> self.y@ == other.y@,
            spec_well_formed::<ProtocolKind>(self@),
    {
        lemma_u16_bytes(spec_i16_bits(self.x@), spec_i16_bits(other.x@));
        lemma_u16_bytes(spec_i16_bits(self.y@), spec_i16_bits(other.y@));
        lemma_i16_bits(self.x@, other.x@, 0);
        lemma_i16_bits(self.y@, other.y@, 0);
        if self@ == other@ {
            assert(self@.props[0] == other@.props[0]);
            assert(self@.props[1] == other@.props[1]);
        }
        assert forall|i: nat, rest: Seq<u8>| i < self@.props.len() implies (
        #[trigger] ProtocolKind::Position.spec_property_len(i, self@.props[i as int] + rest))
            == Ok::<nat, ProtocolError>(self@.props[i as int].len()) by {}
    }

    /// A replica with the given properties.
    pub fn new(x: i16, y: i16) -> (position: Self)
        ensures
            position.x@ == x,
            position.y@ == y,
    {
        Position { x: Property::new(x), y: Property::new(y) }
    }

    /// The number of bytes of the diff mask.
    pub fn get_diff_mask_size(&self) -> (size: u8)
        ensures
            size == spec_mask_size(self@.props.len()),
    {
        1
    }

    /// Appends the full body.
    pub fn write(&self, out_bytes: &mut Vec<u8>)
        ensures
            final(out_bytes)@ == old(out_bytes)@ + spec_write(self@.props),
    {
        write_i16(out_bytes, *self.x.get());
        write_i16(out_bytes, *self.y.get());
        proof {
            reveal_with_fuel(spec_write_from, 3);
            assert(out_bytes@ =~= old(out_bytes)@ + spec_write(self@.props));
        }
    }

    /// Appends the properties that `diff_mask` selects.
    pub fn write_partial(&self, diff_mask: &DiffMask, out_bytes: &mut Vec<u8>)
        ensures
            final(out_bytes)@ == old(out_bytes)@ + spec_write_partial(self@.props, diff_mask@),
    {
        if diff_mask.get_bit(0) {
            write_i16(out_bytes, *self.x.get());
        }
        if diff_mask.get_bit(1) {
            write_i16(out_bytes, *self.y.get());
        }
        proof {
            reveal_with_fuel(spec_write_partial_from, 3);
            assert(out_bytes@ =~= old(out_bytes)@ + spec_write_partial(self@.props, diff_mask@));
        }
    }

    /// Reads a replica of this type from a full body.
    pub fn read_full(reader: &mut PacketReader, packet_index: u16) -> (r: Result<
        Self,
        ProtocolError,
    >)
        requires
            old(reader).wf(),
        ensures
            final(reader).wf(),
            final(reader).bytes() == old(reader).bytes(),
            match r {
                Ok(replica) => spec_read_full::<ProtocolKind>(
                    POSITION_KIND,
                    old(reader).remaining(),
                ) matches Ok(parsed) && parsed.value == replica@ && final(reader).remaining()
                    == old(reader).remaining().skip(parsed.consumed as int),
                Err(e) => spec_read_full::<ProtocolKind>(POSITION_KIND, old(reader).remaining())
                    == Err::<Parsed<ReplicaView>, ProtocolError>(e),
            },
    {
        let ghost input = reader.remaining();
        proof {
            reveal_with_fuel(spec_read_props, 3);
        }
        let x = reader.read_i16()?;
        let y = reader.read_i16()?;
        let replica = Position::new(x, y);
        proof {
            lemma_u16_prefix(input);
            lemma_u16_prefix(input.skip(2));
            assert(input.skip(2).skip(2) =~= input.skip(4));
            let parsed = spec_read_full::<ProtocolKind>(POSITION_KIND, input)->Ok_0;
            assert(parsed.value.props =~= replica@.props);
        }
        Ok(replica)
    }

    /// Reads the properties that `diff_mask` selects. If the packet is at
    /// fault nothing changes.
    pub fn read_partial(
        &mut self,
        diff_mask: &DiffMask,
        reader: &mut PacketReader,
        packet_index: u16,
    ) -> (r: Result<(), ProtocolError>)
        requires
            old(reader).wf(),
        ensures
            final(reader).wf(),
            final(reader).bytes() == old(reader).bytes(),
            match r {
                Ok(_) => spec_read_partial::<ProtocolKind>(
                    old(self)@,
                    diff_mask@,
                    old(reader).remaining(),
                ) matches Ok(parsed) && parsed.value == final(self)@ && final(reader).remaining()
                    == old(reader).remaining().skip(parsed.consumed as int),
                Err(e) => spec_read_partial::<ProtocolKind>(
                    old(self)@,
                    diff_mask@,
                    old(reader).remaining(),
                ) == Err::<Parsed<ReplicaView>, ProtocolError>(e) && final(self)@ == old(self)@,
            },
    {
        let ghost input = reader.remaining();
        proof {
            reveal_with_fuel(spec_read_partial_from, 3);
        }
        let mut x = *self.x.get();
        let mut y = *self.y.get();
        if diff_mask.get_bit(0) {
            x = reader.read_i16()?;
            proof {
                lemma_u16_prefix(input);
            }
        }
        let ghost middle = reader.remaining();
        if diff_mask.get_bit(1) {
            y = reader.read_i16()?;
            proof {
                lemma_u16_prefix(middle);
                if spec_bit(diff_mask@, 0) {
                    assert(input.skip(2).skip(2) =~= input.skip(4));
                }
            }
        }
        self.x.set(x);
        self.y.set(y);
        proof {
            assert(input.skip(0) =~= input);
            let parsed = spec_read_partial::<ProtocolKind>(old(self)@, diff_mask@, input)->Ok_0;
            assert(parsed.value.props =~= self@.props);
        }
        Ok(())
    }

    /// Whether the two have the same properties.
    pub fn equals(&self, other: &Position) -> (equal: bool)
        ensures
            equal == (self@ == other@),
    {
        proof {
            self.lemma_coordinates(other);
        }
        *self.x.get() == *other.x.get() && *self.y.get() == *other.y.get()
    }

    /// Takes over the properties of `other`.
    pub fn mirror(&mut self, other: &Position)
        ensures
            final(self)@ == other@,
    {
        self.x.set(*other.x.get());
        self.y.set(*other.y.get());
    }

    /// The mask of the properties in which `other` differs.
    pub fn diff(&self, other: &Position) -> (mask: DiffMask)
        ensures
            mask.wf(),
            spec_is_diff(mask@, self@, other@),
    {
        let mut mask = DiffMask::new(1);
        let ghost clear = mask@;
        if *self.x.get() != *other.x.get() {
            mask.set_bit(0);
        }
        let ghost first = mask@;
        if *self.y.get() != *other.y.get() {
            mask.set_bit(1);
        }
        proof {
            self.lemma_coordinates(other);
            lemma_clear_no_bit(clear);
            assert forall|i: nat|
                spec_bit(mask@, i) <==> (i < self@.props.len() && self@.kind == other@.kind && i
                    < other@.props.len() && self@.props[i as int] != other@.props[i as int]) by {
                lemma_set_bit(clear, 0, i);
                lemma_set_bit(first, 1, i);
            }
        }
        mask
    }

    /// A replica with the same properties.
    pub fn duplicate(&self) -> (copy: Self)
        ensures
            copy@ == self@,
            copy.x@ == self.x@,
            copy.y@ == self.y@,
    {
        Position::new(*self.x.get(), *self.y.get())
    }
}

/// The properties of a command with the given keys held down.
pub open spec fn spec_key_command_props(w: bool, s: bool, a: bool, d: bool) -> Seq<Seq<u8>> {
    seq![
        seq![spec_bool_byte(w)],
        seq![spec_bool_byte(s)],
        seq![spec_bool_byte(a)],
        seq![spec_bool_byte(d)],
    ]
}

/// What reading a truth value from the head of `input` gives.
pub open spec fn spec_read_bool(input: Seq<u8>) -> Result<bool, ProtocolError> {
    if input.len() < 1 {
        Err(ProtocolError::Truncated)
    } else if input[0] > 1 {
        Err(ProtocolError::InvalidValue)
    } else {
        Ok(input[0] == 1)
    }
}

fn read_bool(reader: &mut PacketReader) -> (r: Result<bool, ProtocolError>)
    requires
        old(reader).wf(),
    ensures
        final(reader).wf(),
        final(reader).bytes() == old(reader).bytes(),
        r == spec_read_bool(old(reader).remaining()),
        r is Ok ==> final(reader).remaining() == old(reader).remaining().skip(1),
        r matches Ok(v) ==> seq![spec_bool_byte(v)] == old(reader).remaining().take(1),
{
    let byte = reader.read_u8()?;
    if byte > 1 {
        return Err(ProtocolError::InvalidValue);
    }
    assert(seq![byte] =~= old(reader).remaining().take(1));
    Ok(byte == 1)
}

/// One step of a partial read of a command: the key at `index`, read from
/// the packet if the mask selects it and kept otherwise.
fn read_key(
    reader: &mut PacketReader,
    diff_mask: &DiffMask,
    index: u8,
    held: bool,
    Ghost(current): Ghost<Seq<Seq<u8>>>,
) -> (r: Result<bool, ProtocolError>)
    requires
        old(reader).wf(),
        index < current.len(),
        current[index as int] == seq![spec_bool_byte(held)],
    ensures
        final(reader).wf(),
        final(reader).bytes() == old(reader).bytes(),
        r is Ok ==> final(reader).remaining().len() <= old(reader).remaining().len(),
        r is Ok ==> final(reader).remaining() == old(reader).remaining().skip(
            old(reader).remaining().len() - final(reader).remaining().len(),
        ),
        match r {
            Ok(key) => spec_read_partial_from(
                ProtocolKind::KeyCommand,
                current,
                diff_mask@,
                index as nat,
                old(reader).remaining(),
            ) == spec_prepend(
                seq![seq![spec_bool_byte(key)]],
                (old(reader).remaining().len() - final(reader).remaining().len()) as nat,
                spec_read_partial_from(
                    ProtocolKind::KeyCommand,
                    current,
                    diff_mask@,
                    (index + 1) as nat,
                    final(reader).remaining(),
                ),
            ),
            Err(e) => spec_read_partial_from(
                ProtocolKind::KeyCommand,
                current,
                diff_mask@,
                index as nat,
                old(reader).remaining(),
            ) == Err::<Parsed<Seq<Seq<u8>>>, ProtocolError>(e),
        },
{
    let ghost input = reader.remaining();
    if diff_mask.get_bit(index) {
        let key = read_bool(reader)?;
        Ok(key)
    } else {
        assert(input.skip(0) =~= input);
        Ok(held)
    }
}

fn write_bool(out: &mut Vec<u8>, value: bool)
    ensures
        final(out)@ == old(out)@ + seq![spec_bool_byte(value)],
{
    write_u8(
        out,
        if value {
            1
        } else {
            0
        },
    );
}

/// The keys a player holds down during one tick: up, down, left, right.
pub struct KeyCommand {
    pub w: Property<bool>,
    pub s: Property<bool>,
    pub a: Property<bool>,
    pub d: Property<bool>,
}

impl KeyCommand {
    /// The kind and the property encodings of this replica.
    pub open spec fn view(&self) -> ReplicaView {
        ReplicaView {
            kind: KEY_COMMAND_KIND,
            props: spec_key_command_props(self.w@, self.s@, self.a@, self.d@),
        }
    }

    /// Commands with the same properties have the same keys held down.
    pub proof fn lemma_keys(&self, other: &KeyCommand)
        ensures
            self@ == other@ <==> (self.w@ == other.w@ && self.s@ == other.s@ && self.a@
                == other.a@ && self.d@ == other.d@),
            self@.props[0] == other@.props[0] <==> self.w@ == other.w@,
            self@.props[1] == other@.props[1] <==> self.s@ == other.s@,
            self@.props[2] == other@.props[2] <==> self.a@ == other.a@,
            self@.props[3] == other@.props[3] <==> self.d@ == other.d@,
            spec_well_formed::<ProtocolKind>(self@),
    {
        assert(self@.props[0][0] == spec_bool_byte(self.w@));
        assert(self@.props[1][0] == spec_bool_byte(self.s@));
        assert(self@.props[2][0] == spec_bool_byte(self.a@));
        assert(self@.props[3][0] == spec_bool_byte(self.d@));
        assert(other@.props[0][0] == spec_bool_byte(other.w@));
        assert(other@.props[1][0] == spec_bool_byte(other.s@));
        assert(other@.props[2][0] == spec_bool_byte(other.a@));
        assert(other@.props[3][0] == spec_bool_byte(other.d@));
        if self@ == other@ {
            assert(self@.props[0] == other@.props[0]);
            assert(self@.props[1] == other@.props[1]);
            assert(self@.props[2] == other@.props[2]);
            assert(self@.props[3] == other@.props[3]);
        }
        assert forall|i: nat, rest: Seq<u8>| i < self@.props.len() implies (
        #[trigger] ProtocolKind::KeyCommand.spec_property_len(i, self@.props[i as int] + rest))
            == Ok::<nat, ProtocolError>(self@.props[i as int].len()) by {
            assert((self@.props[i as int] + rest)[0] == self@.props[i as int][0]);
        }
    }

    /// A replica with the given properties.
    pub fn new(w: bool, s: bool, a: bool, d: bool) -> (command: Self)
        ensures
            command.w@ == w,
            command.s@ == s,
            command.a@ == a,
            command.d@ == d,
    {
        KeyCommand {
            w: Property::new(w),
            s: Property::new(s),
            a: Property::new(a),
            d: Property::new(d),
        }
    }

    /// The number of bytes of the diff mask.
    pub fn get_diff_mask_size(&self) -> (size: u8)
        ensures
            size == spec_mask_size(self@.props.len()),
    {
        1
    }

    /// Appends the full body.
    pub fn write(&self, out_bytes: &mut Vec<u8>)
        ensures
            final(out_bytes)@ == old(out_bytes)@ + spec_write(self@.props),
    {
        write_bool(out_bytes, *self.w.get());
        write_bool(out_bytes, *self.s.get());
        write_bool(out_bytes, *self.a.get());
        write_bool(out_bytes, *self.d.get());
        proof {
            reveal_with_fuel(spec_write_from, 5);
            assert(out_bytes@ =~= old(out_bytes)@ + spec_write(self@.props));
        }
    }

    /// Appends the properties that `diff_mask` selects.
    pub fn write_partial(&self, diff_mask: &DiffMask, out_bytes: &mut Vec<u8>)
        ensures
            final(out_bytes)@ == old(out_bytes)@ + spec_write_partial(self@.props, diff_mask@),
    {
        let ghost props = self@.props;
        let ghost mask = diff_mask@;
        let ghost none = Seq::<u8>::empty();
        let ghost a0 = if spec_bit(mask, 0) { props[0] } else { none };
        let ghost a1 = if spec_bit(mask, 1) { props[1] } else { none };
        let ghost a2 = if spec_bit(mask, 2) { props[2] } else { none };
        let ghost a3 = if spec_bit(mask, 3) { props[3] } else { none };
        if diff_mask.get_bit(0) {
            write_bool(out_bytes, *self.w.get());
        }
        assert(out_bytes@ =~= old(out_bytes)@ + a0);
        if diff_mask.get_bit(1) {
            write_bool(out_bytes, *self.s.get());
        }
        assert(out_bytes@ =~= old(out_bytes)@ + a0 + a1);
        if diff_mask.get_bit(2) {
            write_bool(out_bytes, *self.a.get());
        }
        assert(out_bytes@ =~= old(out_bytes)@ + a0 + a1 + a2);
        if diff_mask.get_bit(3) {
            write_bool(out_bytes, *self.d.get());
        }
        assert(out_bytes@ =~= old(out_bytes)@ + a0 + a1 + a2 + a3);
        proof {
            let t4 = spec_write_partial_from(props, mask, 4);
            let t3 = spec_write_partial_from(props, mask, 3);
            let t2 = spec_write_partial_from(props, mask, 2);
            let t1 = spec_write_partial_from(props, mask, 1);
            let t0 = spec_write_partial_from(props, mask, 0);
            assert(t4 =~= none);
            assert(t3 =~= a3);
            assert(t2 =~= a2 + a3);
            assert(t1 =~= a1 + a2 + a3);
            assert(t0 =~= a0 + a1 + a2 + a3);
            assert(out_bytes@ =~= old(out_bytes)@ + t0);
        }
    }

    /// Reads a replica of this type from a full body.
    pub fn read_full(reader: &mut PacketReader, packet_index: u16) -> (r: Result<
        Self,
        ProtocolError,
    >)
        requires
            old(reader).wf(),
        ensures
            final(reader).wf(),
            final(reader).bytes() == old(reader).bytes(),
            match r {
                Ok(replica) => spec_read_full::<ProtocolKind>(
                    KEY_COMMAND_KIND,
                    old(reader).remaining(),
                ) matches Ok(parsed) && parsed.value == replica@ && final(reader).remaining()
                    == old(reader).remaining().skip(parsed.consumed as int),
                Err(e) => spec_read_full::<ProtocolKind>(
                    KEY_COMMAND_KIND,
                    old(reader).remaining(),
                ) == Err::<Parsed<ReplicaView>, ProtocolError>(e),
            },
    {
        let ghost input = reader.remaining();
        proof {
            reveal_with_fuel(spec_read_props, 5);
        }
        let w = read_bool(reader)?;
        let s = read_bool(reader)?;
        let a = read_bool(reader)?;
        let d = read_bool(reader)?;
        let replica = KeyCommand::new(w, s, a, d);
        proof {
            assert(input.skip(1).skip(1) =~= input.skip(2));
            assert(input.skip(1).skip(1).skip(1) =~= input.skip(3));
            assert(input.skip(1).skip(1).skip(1).skip(1) =~= input.skip(4));
            let parsed = spec_read_full::<ProtocolKind>(KEY_COMMAND_KIND, input)->Ok_0;
            assert(parsed.value.props =~= replica@.props);
        }
        Ok(replica)
    }

    /// Reads the properties that `diff_mask` selects. If the packet is at
    /// fault nothing changes.
    pub fn read_partial(
        &mut self,
        diff_mask: &DiffMask,
        reader: &mut PacketReader,
        packet_index: u16,
    ) -> (r: Result<(), ProtocolError>)
        requires
            old(reader).wf(),
        ensures
            final(reader).wf(),
            final(reader).bytes() == old(reader).bytes(),
            match r {
                Ok(_) => spec_read_partial::<ProtocolKind>(
                    old(self)@,
                    diff_mask@,
                    old(reader).remaining(),
                ) matches Ok(parsed) && parsed.value == final(self)@ && final(reader).remaining()
                    == old(reader).remaining().skip(parsed.consumed as int),
                Err(e) => spec_read_partial::<ProtocolKind>(
                    old(self)@,
                    diff_mask@,
                    old(reader).remaining(),
                ) == Err::<Parsed<ReplicaView>, ProtocolError>(e) && final(self)@ == old(self)@,
            },
    {
        let ghost input = reader.remaining();
        let ghost current = self@.props;
        let w = read_key(reader, diff_mask, 0, *self.w.get(), Ghost(current))?;
        let ghost input1 = reader.remaining();
        let s = read_key(reader, diff_mask, 1, *self.s.get(), Ghost(current))?;
        let ghost input2 = reader.remaining();
        let a = read_key(reader, diff_mask, 2, *self.a.get(), Ghost(current))?;
        let ghost input3 = reader.remaining();
        let d = read_key(reader, diff_mask, 3, *self.d.get(), Ghost(current))?;
        let ghost input4 = reader.remaining();
        self.w.set(w);
        self.s.set(s);
        self.a.set(a);
        self.d.set(d);
        proof {
            let last = spec_read_partial_from(
                ProtocolKind::KeyCommand,
                current,
                diff_mask@,
                4,
                input4,
            );
            assert(last == Ok::<Parsed<Seq<Seq<u8>>>, ProtocolError>(
                Parsed { value: Seq::empty(), consumed: 0 },
            ));
            let parsed = spec_read_partial_from(
                ProtocolKind::KeyCommand,
                current,
                diff_mask@,
                0,
                input,
            )->Ok_0;
            assert(parsed.value =~= self@.props);
            assert(input1 =~= input.skip(input.len() - input1.len()));
            assert(input2 =~= input.skip(input.len() - input2.len()));
            assert(input3 =~= input.skip(input.len() - input3.len()));
            assert(input4 =~= input.skip(input.len() - input4.len()));
        }
        Ok(())
    }

    /// Whether the two have the same properties.
    pub fn equals(&self, other: &KeyCommand) -> (equal: bool)
        ensures
            equal == (self@ == other@),
    {
        proof {
            self.lemma_keys(other);
        }
        *self.w.get() == *other.w.get() && *self.s.get() == *other.s.get() && *self.a.get()
            == *other.a.get() && *self.d.get() == *other.d.get()
    }

    /// Takes over the properties of `other`.
    pub fn mirror(&mut self, other: &KeyCommand)
        ensures
            final(self)@ == other@,
    {
        self.w.set(*other.w.get());
        self.s.set(*other.s.get());
        self.a.set(*other.a.get());
        self.d.set(*other.d.get());
    }

    /// The mask of the properties in which `other` differs.
    pub fn diff(&self, other: &KeyCommand) -> (mask: DiffMask)
        ensures
            mask.wf(),
            spec_is_diff(mask@, self@, other@),
    {
        let mut mask = DiffMask::new(1);
        let ghost m0 = mask@;
        if *self.w.get() != *other.w.get() {
            mask.set_bit(0);
        }
        let ghost m1 = mask@;
        if *self.s.get() != *other.s.get() {
            mask.set_bit(1);
        }
        let ghost m2 = mask@;
        if *self.a.get() != *other.a.get() {
            mask.set_bit(2);
        }
        let ghost m3 = mask@;
        if *self.d.get() != *other.d.get() {
            mask.set_bit(3);
        }
        proof {
            self.lemma_keys(other);
            lemma_clear_no_bit(m0);
            assert forall|i: nat|
                spec_bit(mask@, i) <==> (i < self@.props.len() && self@.kind == other@.kind && i
                    < other@.props.len() && self@.props[i as int] != other@.props[i as int]) by {
                lemma_set_bit(m0, 0, i);
                lemma_set_bit(m1, 1, i);
                lemma_set_bit(m2, 2, i);
                lemma_set_bit(m3, 3, i);
            }
        }
        mask
    }

    /// A replica with the same properties.
    pub fn duplicate(&self) -> (copy: Self)
        ensures
            copy@ == self@,
            copy.w@ == self.w@,
            copy.s@ == self.s@,
            copy.a@ == self.a@,
            copy.d@ == self.d@,
    {
        KeyCommand::new(*self.w.get(), *self.s.get(), *self.a.get(), *self.d.get())
    }
}

/// Any replica of this protocol.
pub enum Protocol {
    Position(Position),
    KeyCommand(KeyCommand),
    Auth(Auth),
    StringMessage(StringMessage),
}

impl ProtocolType for Protocol {
    type Kind = ProtocolKind;

    open spec fn view(&self) -> ReplicaView {
        match self {
            Protocol::Position(position) => position@,
            Protocol::KeyCommand(command) => command@,
            Protocol::Auth(auth) => auth@,
            Protocol::StringMessage(message) => message@,
        }
    }

    proof fn lemma_well_formed(&self) {
        match self {
            Protocol::Position(position) => position.lemma_coordinates(position),
            Protocol::KeyCommand(command) => command.lemma_keys(command),
            Protocol::Auth(auth) => auth.lemma_texts(auth),
            Protocol::StringMessage(message) => message.lemma_texts(message),
        }
    }

    fn kind(&self) -> (kind: ProtocolKind) {
        match self {
            Protocol::Position(_) => ProtocolKind::Position,
            Protocol::KeyCommand(_) => ProtocolKind::KeyCommand,
            Protocol::Auth(_) => ProtocolKind::Auth,
            Protocol::StringMessage(_) => ProtocolKind::StringMessage,
        }
    }

    fn get_diff_mask_size(&self) -> (size: u8) {
        match self {
            Protocol::Position(position) => position.get_diff_mask_size(),
            Protocol::KeyCommand(command) => command.get_diff_mask_size(),
            Protocol::Auth(auth) => auth.get_diff_mask_size(),
            Protocol::StringMessage(message) => message.get_diff_mask_size(),
        }
    }

    fn write(&self, out: &mut Vec<u8>) {
        match self {
            Protocol::Position(position) => position.write(out),
            Protocol::KeyCommand(command) => command.write(out),
            Protocol::Auth(auth) => auth.write(out),
            Protocol::StringMessage(message) => message.write(out),
        }
    }

    fn write_partial(&self, diff_mask: &DiffMask, out: &mut Vec<u8>) {
        match self {
            Protocol::Position(position) => position.write_partial(diff_mask, out),
            Protocol::KeyCommand(command) => command.write_partial(diff_mask, out),
            Protocol::Auth(auth) => auth.write_partial(diff_mask, out),
            Protocol::StringMessage(message) => message.write_partial(diff_mask, out),
        }
    }

    fn read_full(kind: u16, reader: &mut PacketReader, packet_index: u16) -> (r: Result<
        Self,
        ProtocolError,
    >) {
        if kind == POSITION_KIND {
            Ok(Protocol::Position(Position::read_full(reader, packet_index)?))
        } else if kind == KEY_COMMAND_KIND {
            Ok(Protocol::KeyCommand(KeyCommand::read_full(reader, packet_index)?))
        } else if kind == AUTH_KIND {
            Ok(Protocol::Auth(Auth::read_full(reader, packet_index)?))
        } else if kind == STRING_MESSAGE_KIND {
            Ok(Protocol::StringMessage(StringMessage::read_full(reader, packet_index)?))
        } else {
            Err(ProtocolError::UnknownKind)
        }
    }

    fn read_partial(
        &mut self,
        diff_mask: &DiffMask,
        reader: &mut PacketReader,
        packet_index: u16,
    ) -> (r: Result<(), ProtocolError>) {
        match self {
            Protocol::Position(position) => position.read_partial(
                diff_mask,
                reader,
                packet_index,
            ),
            Protocol::KeyCommand(command) => command.read_partial(diff_mask, reader, packet_index),
            Protocol::Auth(auth) => auth.read_partial(diff_mask, reader, packet_index),
            Protocol::StringMessage(message) => message.read_partial(
                diff_mask,
                reader,
                packet_index,
            ),
        }
    }

    fn equals(&self, other: &Self) -> (equal: bool) {
        match self {
            Protocol::Position(position) => match other {
                Protocol::Position(second) => position.equals(second),
                _ => false,
            },
            Protocol::KeyCommand(command) => match other {
                Protocol::KeyCommand(second) => command.equals(second),
                _ => false,
            },
            Protocol::Auth(auth) => match other {
                Protocol::Auth(second) => auth.equals(second),
                _ => false,
            },
            Protocol::StringMessage(message) => match other {
                Protocol::StringMessage(second) => message.equals(second),
                _ => false,
            },
        }
    }

    fn mirror(&mut self, other: &Self) {
        match self {
            Protocol::Position(position) => match other {
                Protocol::Position(second) => position.mirror(second),
                _ => {},
            },
            Protocol::KeyCommand(command) => match other {
                Protocol::KeyCommand(second) => command.mirror(second),
                _ => {},
            },
            Protocol::Auth(auth) => match other {
                Protocol::Auth(second) => auth.mirror(second),
                _ => {},
            },
            Protocol::StringMessage(message) => match other {
                Protocol::StringMessage(second) => message.mirror(second),
                _ => {},
            },
        }
    }

    fn diff(&self, other: &Self) -> (mask: DiffMask) {
        match self {
            Protocol::Position(position) => match other {
                Protocol::Position(second) => position.diff(second),
                _ => clear_mask(1),
            },
            Protocol::KeyCommand(command) => match other {
                Protocol::KeyCommand(second) => command.diff(second),
                _ => clear_mask(1),
            },
            Protocol::Auth(auth) => match other {
                Protocol::Auth(second) => auth.diff(second),
                _ => clear_mask(1),
            },
            Protocol::StringMessage(message) => match other {
                Protocol::StringMessage(second) => message.diff(second),
                _ => clear_mask(1),
            },
        }
    }

    fn copy(&self) -> (duplicate: Self) {
        match self {
            Protocol::Position(position) => Protocol::Position(position.duplicate()),
            Protocol::KeyCommand(command) => Protocol::KeyCommand(command.duplicate()),
            Protocol::Auth(auth) => Protocol::Auth(auth.duplicate()),
            Protocol::StringMessage(message) => Protocol::StringMessage(message.duplicate()),
        }
    }
}

fn clear_mask(bytes: u8) -> (mask: DiffMask)
    ensures
        mask.wf(),
        mask@.len() == bytes,
        forall|i: nat| !spec_bit(mask@, i),
{
    let mask = DiffMask::new(bytes);
    proof {
        lemma_clear_no_bit(mask@);
    }
    mask
}

impl ProtocolExtract for Protocol {
    fn extract_and_insert<N, X: ProtocolInserter<Self, N>>(&self, entity: &N, inserter: &mut X) {
        match self {
            Protocol::Position(position) => inserter.insert(entity, position.duplicate()),
            Protocol::KeyCommand(command) => inserter.insert(entity, command.duplicate()),
            Protocol::Auth(auth) => inserter.insert(entity, auth.duplicate()),
            Protocol::StringMessage(message) => inserter.insert(entity, message.duplicate()),
        }
    }
}

impl EventClone<Protocol> for Position {
    open spec fn view(&self) -> ReplicaView {
        Position::view(self)
    }

    fn clone_box(&self) -> (copy: Box<Protocol>) {
        Box::new(Protocol::Position(self.duplicate()))
    }
}

impl Replicate<Protocol> for Position {
    open spec fn spec_kind() -> ProtocolKind {
        ProtocolKind::Position
    }

    proof fn lemma_replica(&self) {
        self.lemma_coordinates(self);
    }

    fn get_kind() -> (kind: ProtocolKind) {
        ProtocolKind::Position
    }

    fn get_diff_mask_size(&self) -> (size: u8) {
        Position::get_diff_mask_size(self)
    }

    fn get_typed_copy(&self) -> (copy: Protocol) {
        Protocol::Position(self.duplicate())
    }

    fn write(&self, out_bytes: &mut Vec<u8>) {
        Position::write(self, out_bytes)
    }

    fn write_partial(&self, diff_mask: &DiffMask, out_bytes: &mut Vec<u8>) {
        Position::write_partial(self, diff_mask, out_bytes)
    }

    fn read_full(reader: &mut PacketReader, packet_index: u16) -> (r: Result<
        Self,
        ProtocolError,
    >) {
        Position::read_full(reader, packet_index)
    }

    fn read_partial(
        &mut self,
        diff_mask: &DiffMask,
        reader: &mut PacketReader,
        packet_index: u16,
    ) -> (r: Result<(), ProtocolError>) {
        Position::read_partial(self, diff_mask, reader, packet_index)
    }

    fn cast_ref(protocol: &Protocol) -> (r: Option<&Self>) {
        match protocol {
            Protocol::Position(position) => Some(position),
            _ => None,
        }
    }

    fn cast_mut(protocol: &mut Protocol) -> (r: Option<&mut Self>) {
        match protocol {
            Protocol::Position(position) => Some(position),
            _ => None,
        }
    }

    fn cast(protocol: Protocol) -> (r: Option<Self>) {
        match protocol {
            Protocol::Position(position) => Some(position),
            _ => None,
        }
    }
}

impl ReplicateEq<Protocol> for Position {
    fn equals(&self, other: &Self) -> (equal: bool) {
        Position::equals(self, other)
    }

    fn mirror(&mut self, other: &Self) {
        Position::mirror(self, other)
    }
}

impl EventClone<Protocol> for KeyCommand {
    open spec fn view(&self) -> ReplicaView {
        KeyCommand::view(self)
    }

    fn clone_box(&self) -> (copy: Box<Protocol>) {
        Box::new(Protocol::KeyCommand(self.duplicate()))
    }
}

impl Replicate<Protocol> for KeyCommand {
    open spec fn spec_kind() -> ProtocolKind {
        ProtocolKind::KeyCommand
    }

    proof fn lemma_replica(&self) {
        self.lemma_keys(self);
    }

    fn get_kind() -> (kind: ProtocolKind) {
        ProtocolKind::KeyCommand
    }

    fn get_diff_mask_size(&self) -> (size: u8) {
        KeyCommand::get_diff_mask_size(self)
    }

    fn get_typed_copy(&self) -> (copy: Protocol) {
        Protocol::KeyCommand(self.duplicate())
    }

    fn write(&self, out_bytes: &mut Vec<u8>) {
        KeyCommand::write(self, out_bytes)
    }

    fn write_partial(&self, diff_mask: &DiffMask, out_bytes: &mut Vec<u8>) {
        KeyCommand::write_partial(self, diff_mask, out_bytes)
    }

    fn read_full(reader: &mut PacketReader, packet_index: u16) -> (r: Result<
        Self,
        ProtocolError,
    >) {
        KeyCommand::read_full(reader, packet_index)
    }

    fn read_partial(
        &mut self,
        diff_mask: &DiffMask,
        reader: &mut PacketReader,
        packet_index: u16,
    ) -> (r: Result<(), ProtocolError>) {
        KeyCommand::read_partial(self, diff_mask, reader, packet_index)
    }

    fn cast_ref(protocol: &Protocol) -> (r: Option<&Self>) {
        match protocol {
            Protocol::KeyCommand(command) => Some(command),
            _ => None,
        }
    }

    fn cast_mut(protocol: &mut Protocol) -> (r: Option<&mut Self>) {
        match protocol {
            Protocol::KeyCommand(command) => Some(command),
            _ => None,
        }
    }

    fn cast(protocol: Protocol) -> (r: Option<Self>) {
        match protocol {
            Protocol::KeyCommand(command) => Some(command),
            _ => None,
        }
    }
}

impl ReplicateEq<Protocol> for KeyCommand {
    fn equals(&self, other: &Self) -> (equal: bool) {
        KeyCommand::equals(self, other)
    }

    fn mirror(&mut self, other: &Self) {
        KeyCommand::mirror(self, other)
    }
}

} // verus!

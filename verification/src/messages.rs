//! The messages of the small protocol: what a user asks to be let in with,
//! and a line of text.

use vstd::prelude::*;
use crate::diff_mask::{DiffMask, lemma_clear_no_bit, lemma_set_bit, spec_bit};
use crate::error::ProtocolError;
use crate::packet_reader::{PacketReader, Parsed};
use crate::property::Property;
use crate::protocol::{AUTH_KIND, Protocol, ProtocolKind, STRING_MESSAGE_KIND};
use crate::protocol_type::ProtocolKindType;
use crate::replicate::{EventClone, Replicate, ReplicateEq};
use crate::text::{lemma_text, read_text, spec_text, text_copy, text_equals, write_text};
use crate::wire::{
    ReplicaView, spec_is_diff, spec_mask_size, spec_read_full, spec_read_partial,
    spec_read_partial_from, spec_read_props, spec_well_formed, spec_write, spec_write_from,
    spec_write_partial, spec_write_partial_from,
};

verus! {

/// The properties of a request to be let in.
pub open spec fn spec_auth_props(username: Seq<u8>, password: Seq<u8>) -> Seq<Seq<u8>> {
    seq![spec_text(username), spec_text(password)]
}

/// What a user asks to be let in with.
pub struct Auth {
    pub username: Property<Vec<u8>>,
    pub password: Property<Vec<u8>>,
}

impl Auth {
    /// The kind and the property encodings of this replica.
    pub open spec fn view(&self) -> ReplicaView {
        ReplicaView { kind: AUTH_KIND, props: spec_auth_props(self.username@@, self.password@@) }
    }

    /// Requests with the same properties have the same name and the same
    /// password, as far as a property carries them.
    pub proof fn lemma_texts(&self, other: &Auth)
        ensures
            self@ == other@ <==> (spec_text(self.username@@) == spec_text(other.username@@)
                && spec_text(self.password@@) == spec_text(other.password@@)),
            self@.props[0] == spec_text(self.username@@),
            self@.props[1] == spec_text(self.password@@),
            spec_well_formed::<ProtocolKind>(self@),
    {
        if self@ == other@ {
            assert(self@.props[0] == other@.props[0]);
            assert(self@.props[1] == other@.props[1]);
        }
        assert forall|i: nat, rest: Seq<u8>| i < self@.props.len() implies (
        #[trigger] ProtocolKind::Auth.spec_property_len(i, self@.props[i as int] + rest)) == Ok::<
            nat,
            ProtocolError,
        >(self@.props[i as int].len()) by {
            lemma_text(self.username@@, self.username@@, rest);
            lemma_text(self.password@@, self.password@@, rest);
        }
    }

    /// A replica with the given properties.
    pub fn new(username: Vec<u8>, password: Vec<u8>) -> (auth: Self)
        ensures
            auth.username@ == username,
            auth.password@ == password,
    {
        Auth { username: Property::new(username), password: Property::new(password) }
    }

    /// The number of bytes of the diff mask.
    pub fn get_diff_mask_size(&self) -> (size: u8)
        ensures
            size == spec_mask_size(self@.props.len()),
    {
        1
    }

    /// Appends the full body.
    pub fn write(&self, out_bytes: &mut Vec<u8>)
        ensures
            final(out_bytes)@ == old(out_bytes)@ + spec_write(self@.props),
    {
        write_text(out_bytes, self.username.get());
        write_text(out_bytes, self.password.get());
        proof {
            reveal_with_fuel(spec_write_from, 3);
            assert(out_bytes@ =~= old(out_bytes)@ + spec_write(self@.props));
        }
    }

    /// Appends the properties that `diff_mask` selects.
    pub fn write_partial(&self, diff_mask: &DiffMask, out_bytes: &mut Vec<u8>)
        ensures
            final(out_bytes)@ == old(out_bytes)@ + spec_write_partial(self@.props, diff_mask@),
    {
        if diff_mask.get_bit(0) {
            write_text(out_bytes, self.username.get());
        }
        if diff_mask.get_bit(1) {
            write_text(out_bytes, self.password.get());
        }
        proof {
            reveal_with_fuel(spec_write_partial_from, 3);
            assert(out_bytes@ =~= old(out_bytes)@ + spec_write_partial(self@.props, diff_mask@));
        }
    }

    /// Reads a replica of this type from a full body.
    pub fn read_full(reader: &mut PacketReader, packet_index: u16) -> (r: Result<
        Self,
        ProtocolError,
    >)
        requires
            old(reader).wf(),
        ensures
            final(reader).wf(),
            final(reader).bytes() == old(reader).bytes(),
            match r {
                Ok(replica) => spec_read_full::<ProtocolKind>(AUTH_KIND, old(reader).remaining())
                    matches Ok(parsed) && parsed.value == replica@ && final(reader).remaining()
                    == old(reader).remaining().skip(parsed.consumed as int),
                Err(e) => spec_read_full::<ProtocolKind>(AUTH_KIND, old(reader).remaining())
                    == Err::<Parsed<ReplicaView>, ProtocolError>(e),
            },
    {
        let ghost input = reader.remaining();
        proof {
            reveal_with_fuel(spec_read_props, 3);
        }
        let username = read_text(reader)?;
        let ghost used = 2 + username@.len();
        let password = read_text(reader)?;
        let ghost total = used + 2 + password@.len();
        let replica = Auth::new(username, password);
        proof {
            assert(input.skip(used as int).skip(2 + password@.len() as int) =~= input.skip(
                total as int,
            ));
            let parsed = spec_read_full::<ProtocolKind>(AUTH_KIND, input)->Ok_0;
            assert(parsed.value.props =~= replica@.props);
        }
        Ok(replica)
    }

    /// Reads the properties that `diff_mask` selects. If the packet is at
    /// fault nothing changes.
    pub fn read_partial(
        &mut self,
        diff_mask: &DiffMask,
        reader: &mut PacketReader,
        packet_index: u16,
    ) -> (r: Result<(), ProtocolError>)
        requires
            old(reader).wf(),
        ensures
            final(reader).wf(),
            final(reader).bytes() == old(reader).bytes(),
            match r {
                Ok(_) => spec_read_partial::<ProtocolKind>(
                    old(self)@,
                    diff_mask@,
                    old(reader).remaining(),
                ) matches Ok(parsed) && parsed.value == final(self)@ && final(reader).remaining()
                    == old(reader).remaining().skip(parsed.consumed as int),
                Err(e) => spec_read_partial::<ProtocolKind>(
                    old(self)@,
                    diff_mask@,
                    old(reader).remaining(),
                ) == Err::<Parsed<ReplicaView>, ProtocolError>(e) && final(self)@ == old(self)@,
            },
    {
        let ghost input = reader.remaining();
        proof {
            reveal_with_fuel(spec_read_partial_from, 3);
            assert(input.skip(0) =~= input);
        }
        let mut username: Option<Vec<u8>> = None;
        let mut password: Option<Vec<u8>> = None;
        let ghost mut used: nat = 0;
        if diff_mask.get_bit(0) {
            let text = read_text(reader)?;
            proof {
                used = 2 + text@.len();
            }
            username = Some(text);
        }
        let ghost middle = reader.remaining();
        assert(middle =~= input.skip(used as int));
        if diff_mask.get_bit(1) {
            let text = read_text(reader)?;
            proof {
                assert(middle.skip(2 + text@.len() as int) =~= input.skip(
                    used as int + 2 + text@.len() as int,
                ));
            }
            password = Some(text);
        }
        match username {
            Some(text) => {
                self.username.set(text);
            },
            None => {},
        }
        match password {
            Some(text) => {
                self.password.set(text);
            },
            None => {},
        }
        proof {
            let parsed = spec_read_partial::<ProtocolKind>(old(self)@, diff_mask@, input)->Ok_0;
            assert(parsed.value.props =~= self@.props);
        }
        Ok(())
    }

    /// Whether the two have the same properties.
    pub fn equals(&self, other: &Auth) -> (equal: bool)
        ensures
            equal == (self@ == other@),
    {
        proof {
            self.lemma_texts(other);
        }
        text_equals(self.username.get(), other.username.get()) && text_equals(
            self.password.get(),
            other.password.get(),
        )
    }

    /// Takes over the properties of `other`.
    pub fn mirror(&mut self, other: &Auth)
        ensures
            final(self)@ == other@,
    {
        self.username.set(text_copy(other.username.get()));
        self.password.set(text_copy(other.password.get()));
    }

    /// The mask of the properties in which `other` differs.
    pub fn diff(&self, other: &Auth) -> (mask: DiffMask)
        ensures
            mask.wf(),
            spec_is_diff(mask@, self@, other@),
    {
        let mut mask = DiffMask::new(1);
        let ghost clear = mask@;
        if !text_equals(self.username.get(), other.username.get()) {
            mask.set_bit(0);
        }
        let ghost first = mask@;
        if !text_equals(self.password.get(), other.password.get()) {
            mask.set_bit(1);
        }
        proof {
            self.lemma_texts(other);
            other.lemma_texts(other);
            lemma_clear_no_bit(clear);
            assert forall|i: nat|
                spec_bit(mask@, i) <==> (i < self@.props.len() && self@.kind == other@.kind && i
                    < other@.props.len() && self@.props[i as int] != other@.props[i as int]) by {
                lemma_set_bit(clear, 0, i);
                lemma_set_bit(first, 1, i);
            }
        }
        mask
    }

    /// A replica with the same properties.
    pub fn duplicate(&self) -> (copy: Self)
        ensures
            copy@ == self@,
    {
        Auth::new(text_copy(self.username.get()), text_copy(self.password.get()))
    }
}

/// A line of text.
pub struct StringMessage {
    pub contents: Property<Vec<u8>>,
}

impl StringMessage {
    /// The kind and the property encodings of this replica.
    pub open spec fn view(&self) -> ReplicaView {
        ReplicaView { kind: STRING_MESSAGE_KIND, props: seq![spec_text(self.contents@@)] }
    }

    /// Messages with the same properties have the same text, as far as a
    /// property carries it.
    pub proof fn lemma_texts(&self, other: &StringMessage)
        ensures
            self@ == other@ <==> spec_text(self.contents@@) == spec_text(other.contents@@),
            self@.props[0] == spec_text(self.contents@@),
            spec_well_formed::<ProtocolKind>(self@),
    {
        if self@ == other@ {
            assert(self@.props[0] == other@.props[0]);
        }
        assert forall|i: nat, rest: Seq<u8>| i < self@.props.len() implies (
        #[trigger] ProtocolKind::StringMessage.spec_property_len(i, self@.props[i as int] + rest))
            == Ok::<nat, ProtocolError>(self@.props[i as int].len()) by {
            lemma_text(self.contents@@, self.contents@@, rest);
        }
    }

    /// A replica with the given properties.
    pub fn new(contents: Vec<u8>) -> (message: Self)
        ensures
            message.contents@ == contents,
    {
        StringMessage { contents: Property::new(contents) }
    }

    /// The number of bytes of the diff mask.
    pub fn get_diff_mask_size(&self) -> (size: u8)
        ensures
            size == spec_mask_size(self@.props.len()),
    {
        1
    }

    /// Appends the full body.
    pub fn write(&self, out_bytes: &mut Vec<u8>)
        ensures
            final(out_bytes)@ == old(out_bytes)@ + spec_write(self@.props),
    {
        write_text(out_bytes, self.contents.get());
        proof {
            reveal_with_fuel(spec_write_from, 2);
            assert(out_bytes@ =~= old(out_bytes)@ + spec_write(self@.props));
        }
    }

    /// Appends the properties that `diff_mask` selects.
    pub fn write_partial(&self, diff_mask: &DiffMask, out_bytes: &mut Vec<u8>)
        ensures
            final(out_bytes)@ == old(out_bytes)@ + spec_write_partial(self@.props, diff_mask@),
    {
        if diff_mask.get_bit(0) {
            write_text(out_bytes, self.contents.get());
        }
        proof {
            reveal_with_fuel(spec_write_partial_from, 2);
            assert(out_bytes@ =~= old(out_bytes)@ + spec_write_partial(self@.props, diff_mask@));
        }
    }

    /// Reads a replica of this type from a full body.
    pub fn read_full(reader: &mut PacketReader, packet_index: u16) -> (r: Result<
        Self,
        ProtocolError,
    >)
        requires
            old(reader).wf(),
        ensures
            final(reader).wf(),
            final(reader).bytes() == old(reader).bytes(),
            match r {
                Ok(replica) => spec_read_full::<ProtocolKind>(
                    STRING_MESSAGE_KIND,
                    old(reader).remaining(),
                ) matches Ok(parsed) && parsed.value == replica@ && final(reader).remaining()
                    == old(reader).remaining().skip(parsed.consumed as int),
                Err(e) => spec_read_full::<ProtocolKind>(
                    STRING_MESSAGE_KIND,
                    old(reader).remaining(),
                ) == Err::<Parsed<ReplicaView>, ProtocolError>(e),
            },
    {
        let ghost input = reader.remaining();
        proof {
            reveal_with_fuel(spec_read_props, 2);
        }
        let contents = read_text(reader)?;
        let replica = StringMessage::new(contents);
        proof {
            let parsed = spec_read_full::<ProtocolKind>(STRING_MESSAGE_KIND, input)->Ok_0;
            assert(parsed.value.props =~= replica@.props);
        }
        Ok(replica)
    }

    /// Reads the properties that `diff_mask` selects. If the packet is at
    /// fault nothing changes.
    pub fn read_partial(
        &mut self,
        diff_mask: &DiffMask,
        reader: &mut PacketReader,
        packet_index: u16,
    ) -> (r: Result<(), ProtocolError>)
        requires
            old(reader).wf(),
        ensures
            final(reader).wf(),
            final(reader).bytes() == old(reader).bytes(),
            match r {
                Ok(_) => spec_read_partial::<ProtocolKind>(
                    old(self)@,
                    diff_mask@,
                    old(reader).remaining(),
                ) matches Ok(parsed) && parsed.value == final(self)@ && final(reader).remaining()
                    == old(reader).remaining().skip(parsed.consumed as int),
                Err(e) => spec_read_partial::<ProtocolKind>(
                    old(self)@,
                    diff_mask@,
                    old(reader).remaining(),
                ) == Err::<Parsed<ReplicaView>, ProtocolError>(e) && final(self)@ == old(self)@,
            },
    {
        let ghost input = reader.remaining();
        proof {
            reveal_with_fuel(spec_read_partial_from, 2);
            assert(input.skip(0) =~= input);
        }
        if diff_mask.get_bit(0) {
            let text = read_text(reader)?;
            self.contents.set(text);
        }
        proof {
            let parsed = spec_read_partial::<ProtocolKind>(old(self)@, diff_mask@, input)->Ok_0;
            assert(parsed.value.props =~= self@.props);
        }
        Ok(())
    }

    /// Whether the two have the same properties.
    pub fn equals(&self, other: &StringMessage) -> (equal: bool)
        ensures
            equal == (self@ == other@),
    {
        proof {
            self.lemma_texts(other);
        }
        text_equals(self.contents.get(), other.contents.get())
    }

    /// Takes over the properties of `other`.
    pub fn mirror(&mut self, other: &StringMessage)
        ensures
            final(self)@ == other@,
    {
        self.contents.set(text_copy(other.contents.get()));
    }

    /// The mask of the properties in which `other` differs.
    pub fn diff(&self, other: &StringMessage) -> (mask: DiffMask)
        ensures
            mask.wf(),
            spec_is_diff(mask@, self@, other@),
    {
        let mut mask = DiffMask::new(1);
        let ghost clear = mask@;
        if !text_equals(self.contents.get(), other.contents.get()) {
            mask.set_bit(0);
        }
        proof {
            self.lemma_texts(other);
            lemma_clear_no_bit(clear);
            assert forall|i: nat|
                spec_bit(mask@, i) <==> (i < self@.props.len() && self@.kind == other@.kind && i
                    < other@.props.len() && self@.props[i as int] != other@.props[i as int]) by {
                lemma_set_bit(clear, 0, i);
            }
        }
        mask
    }

    /// A replica with the same properties.
    pub fn duplicate(&self) -> (copy: Self)
        ensures
            copy@ == self@,
    {
        StringMessage::new(text_copy(self.contents.get()))
    }
}

impl EventClone<Protocol> for Auth {
    open spec fn view(&self) -> ReplicaView {
        Auth::view(self)
    }

    fn clone_box(&self) -> (copy: Box<Protocol>) {
        Box::new(Protocol::Auth(self.duplicate()))
    }
}

impl Replicate<Protocol> for Auth {
    open spec fn spec_kind() -> ProtocolKind {
        ProtocolKind::Auth
    }

    proof fn lemma_replica(&self) {
        self.lemma_texts(self);
    }

    fn get_kind() -> (kind: ProtocolKind) {
        ProtocolKind::Auth
    }

    fn get_diff_mask_size(&self) -> (size: u8) {
        Auth::get_diff_mask_size(self)
    }

    fn get_typed_copy(&self) -> (copy: Protocol) {
        Protocol::Auth(self.duplicate())
    }

    fn write(&self, out_bytes: &mut Vec<u8>) {
        Auth::write(self, out_bytes)
    }

    fn write_partial(&self, diff_mask: &DiffMask, out_bytes: &mut Vec<u8>) {
        Auth::write_partial(self, diff_mask, out_bytes)
    }

    fn read_full(reader: &mut PacketReader, packet_index: u16) -> (r: Result<
        Self,
        ProtocolError,
    >) {
        Auth::read_full(reader, packet_index)
    }

    fn read_partial(
        &mut self,
        diff_mask: &DiffMask,
        reader: &mut PacketReader,
        packet_index: u16,
    ) -> (r: Result<(), ProtocolError>) {
        Auth::read_partial(self, diff_mask, reader, packet_index)
    }

    fn cast_ref(protocol: &Protocol) -> (r: Option<&Self>) {
        match protocol {
            Protocol::Auth(auth) => Some(auth),
            _ => None,
        }
    }

    fn cast_mut(protocol: &mut Protocol) -> (r: Option<&mut Self>) {
        match protocol {
            Protocol::Auth(auth) => Some(auth),
            _ => None,
        }
    }

    fn cast(protocol: Protocol) -> (r: Option<Self>) {
        match protocol {
            Protocol::Auth(auth) => Some(auth),
            _ => None,
        }
    }
}

impl ReplicateEq<Protocol> for Auth {
    fn equals(&self, other: &Self) -> (equal: bool) {
        Auth::equals(self, other)
    }

    fn mirror(&mut self, other: &Self) {
        Auth::mirror(self, other)
    }
}

impl EventClone<Protocol> for StringMessage {
    open spec fn view(&self) -> ReplicaView {
        StringMessage::view(self)
    }

    fn clone_box(&self) -> (copy: Box<Protocol>) {
        Box::new(Protocol::StringMessage(self.duplicate()))
    }
}

impl Replicate<Protocol> for StringMessage {
    open spec fn spec_kind() -> ProtocolKind {
        ProtocolKind::StringMessage
    }

    proof fn lemma_replica(&self) {
        self.lemma_texts(self);
    }

    fn get_kind() -> (kind: ProtocolKind) {
        ProtocolKind::StringMessage
    }

    fn get_diff_mask_size(&self) -> (size: u8) {
        StringMessage::get_diff_mask_size(self)
    }

    fn get_typed_copy(&self) -> (copy: Protocol) {
        Protocol::StringMessage(self.duplicate())
    }

    fn write(&self, out_bytes: &mut Vec<u8>) {
        StringMessage::write(self, out_bytes)
    }

    fn write_partial(&self, diff_mask: &DiffMask, out_bytes: &mut Vec<u8>) {
        StringMessage::write_partial(self, diff_mask, out_bytes)
    }

    fn read_full(reader: &mut PacketReader, packet_index: u16) -> (r: Result<
        Self,
        ProtocolError,
    >) {
        StringMessage::read_full(reader, packet_index)
    }

    fn read_partial(
        &mut self,
        diff_mask: &DiffMask,
        reader: &mut PacketReader,
        packet_index: u16,
    ) -> (r: Result<(), ProtocolError>) {
        StringMessage::read_partial(self, diff_mask, reader, packet_index)
    }

    fn cast_ref(protocol: &Protocol) -> (r: Option<&Self>) {
        match protocol {
            Protocol::StringMessage(message) => Some(message),
            _ => None,
        }
    }

    fn cast_mut(protocol: &mut Protocol) -> (r: Option<&mut Self>) {
        match protocol {
            Protocol::StringMessage(message) => Some(message),
            _ => None,
        }
    }

    fn cast(protocol: Protocol) -> (r: Option<Self>) {
        match protocol {
            Protocol::StringMessage(message) => Some(message),
            _ => None,
        }
    }
}

impl ReplicateEq<Protocol> for StringMessage {
    fn equals(&self, other: &Self) -> (equal: bool) {
        StringMessage::equals(self, other)
    }

    fn mirror(&mut self, other: &Self) {
        StringMessage::mirror(self, other)
    }
}

} // verus!

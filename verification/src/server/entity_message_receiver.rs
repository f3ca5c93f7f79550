//! The commands that a client has sent for its pawns, kept until the server
//! reaches the tick that they are for.

use vstd::prelude::*;
use crate::error::ProtocolError;
use crate::manifest::{Manifest, ReplicaBuilder, spec_create_replica};
use crate::packet_reader::{PacketReader, Parsed, spec_read_u16};
use crate::protocol_type::{ProtocolKindType, ProtocolType};
use crate::sequence_buffer::{SequenceBuffer, spec_accepts, spec_advance, spec_insert};
use crate::wire::{ReplicaView, lemma_read_full_bounds};
use crate::wrapping_number::{
    sequence_greater_than, spec_sequence_greater_than, spec_wrapping_diff,
};

verus! {

/// How many ticks ahead of the server a command can be.
pub const MESSAGE_BUFFER_MAX_SIZE: u16 = 64;

/// A message for an entity, as it arrived.
pub struct EntityMessage<P> {
    /// The key under which the connection knows the entity.
    pub entity: u16,
    pub message: P,
}

/// A message for an entity, with the message taken by its view.
pub struct EntityMessageView {
    pub entity: u16,
    pub message: ReplicaView,
}

impl<P: ProtocolType> EntityMessage<P> {
    /// What this value is to the contracts.
    pub open spec fn view(&self) -> EntityMessageView {
        EntityMessageView { entity: self.entity, message: self.message@ }
    }
}

/// The views of a list of messages.
pub open spec fn spec_messages<P: ProtocolType>(messages: Seq<EntityMessage<P>>) -> Seq<
    EntityMessageView,
> {
    messages.map_values(|message: EntityMessage<P>| message@)
}

/// Whether one of `messages[from..]` is for `entity`.
pub open spec fn spec_has_message(messages: Seq<EntityMessageView>, entity: u16, from: nat) -> bool
    decreases messages.len() - from,
{
    if from >= messages.len() {
        false
    } else if messages[from as int].entity == entity {
        true
    } else {
        spec_has_message(messages, entity, from + 1)
    }
}

/// No two of `messages` are for one entity.
pub open spec fn spec_distinct_entities(messages: Seq<EntityMessageView>) -> bool {
    forall|i: int, j: int|
        #![trigger messages[i], messages[j]]
        0 <= i < j < messages.len() ==> messages[i].entity != messages[j].entity
}

/// Where none of `messages[from..]` is for `entity`, each is for another.
pub proof fn lemma_has_no_message(messages: Seq<EntityMessageView>, entity: u16, from: nat)
    requires
        !spec_has_message(messages, entity, from),
    ensures
        forall|k: int| from <= k < messages.len() ==> (#[trigger] messages[k]).entity != entity,
    decreases messages.len() - from,
{
    if from < messages.len() {
        lemma_has_no_message(messages, entity, from + 1);
    }
}

/// The messages that wait, by the tick that they are for.
pub struct PendingView {
    /// The newest tick for which a message was kept; none before the first
    /// message.
    pub head: Option<u16>,
    /// The messages of each tick, in the order in which they came.
    pub ticks: Map<u16, Seq<EntityMessageView>>,
}

/// A state of the receiver, and either the number of bytes that were read
/// on the way to it or the fault at which reading stopped.
pub struct Received {
    pub state: PendingView,
    pub result: Result<nat, ProtocolError>,
}

/// What reading a message for an entity from the head of `input` gives: the
/// key of the entity, the number of the message's kind, its full body.
pub open spec fn spec_read_message<K: ProtocolKindType>(registered: Set<u16>, input: Seq<u8>)
    -> Result<Parsed<EntityMessageView>, ProtocolError> {
    match spec_read_u16(input) {
        Err(e) => Err(e),
        Ok(entity) => match spec_read_u16(input.skip(2)) {
            Err(e) => Err(e),
            Ok(kind) => match spec_create_replica::<K>(registered, kind, input.skip(4)) {
                Err(e) => Err(e),
                Ok(parsed) => Ok(
                    Parsed {
                        value: EntityMessageView { entity, message: parsed.value },
                        consumed: parsed.consumed + 4,
                    },
                ),
            },
        },
    }
}

impl PendingView {
    /// For one entity and one tick one message waits at most.
    pub open spec fn single(self) -> bool {
        forall|tick: u16| #[trigger]
            self.ticks.contains_key(tick) ==> spec_distinct_entities(self.ticks[tick])
    }

    /// A message that comes leaves one message for an entity and a tick at
    /// most.
    pub proof fn lemma_store_single(self, tick: u16, message: EntityMessageView)
        requires
            self.single(),
        ensures
            self.store(tick, message).single(),
    {
        let after = self.store(tick, message);
        assert forall|t: u16| #[trigger] after.ticks.contains_key(t) implies spec_distinct_entities(
            after.ticks[t],
        ) by {
            if t == tick && after != self {
                if self.ticks.contains_key(tick) {
                    let before = self.ticks[tick];
                    lemma_has_no_message(before, message.entity, 0);
                    let list = after.ticks[t];
                    assert(list == before.push(message));
                    assert forall|i: int, j: int|
                        #![trigger list[i], list[j]]
                        0 <= i < j < list.len() implies list[i].entity != list[j].entity by {
                        assert(list[i] == before[i]);
                        if j < before.len() {
                            assert(list[j] == before[j]);
                        }
                    }
                } else {
                    assert(after.ticks[t] == seq![message]);
                }
            } else {
                assert(self.ticks.contains_key(t));
                assert(after.ticks[t] == self.ticks[t]);
            }
        }
    }

    /// Taking a message leaves one message for an entity and a tick at most.
    pub proof fn lemma_pop_single(self, tick: u16)
        requires
            self.single(),
        ensures
            self.pop(tick).single(),
    {
        let after = self.pop(tick);
        assert forall|t: u16| #[trigger] after.ticks.contains_key(t) implies spec_distinct_entities(
            after.ticks[t],
        ) by {
            assert(self.ticks.contains_key(t));
            if t == tick && after != self {
                let before = self.ticks[tick];
                let list = after.ticks[t];
                assert(list == before.skip(1));
                assert forall|i: int, j: int|
                    #![trigger list[i], list[j]]
                    0 <= i < j < list.len() implies list[i].entity != list[j].entity by {
                    assert(list[i] == before[i + 1]);
                    assert(list[j] == before[j + 1]);
                }
            } else {
                assert(after.ticks[t] == self.ticks[t]);
            }
        }
    }

    /// The state after `message` has come for the tick `tick`. Of several
    /// messages for one entity and one tick the first is kept. The first
    /// message of a user is kept whatever its tick; after that a tick that
    /// is 64 or more behind the newest is not kept at all.
    pub open spec fn store(self, tick: u16, message: EntityMessageView) -> PendingView {
        if self.ticks.contains_key(tick) {
            if spec_has_message(self.ticks[tick], message.entity, 0) {
                self
            } else {
                PendingView { ticks: self.ticks.insert(tick, self.ticks[tick].push(message)), ..self }
            }
        } else if spec_accepts(self.head, MESSAGE_BUFFER_MAX_SIZE as nat, tick) {
            PendingView {
                head: Some(spec_advance(self.head, tick)),
                ticks: spec_insert(
                    self.ticks,
                    self.head,
                    MESSAGE_BUFFER_MAX_SIZE as nat,
                    tick,
                    seq![message],
                ),
            }
        } else {
            self
        }
    }

    /// Whether a message of a client at `client_tick` is kept by a server
    /// at `server_tick`: the server knows its tick, and the client is ahead
    /// of it.
    pub open spec fn keeps(server_tick: Option<u16>, client_tick: u16) -> bool {
        server_tick matches Some(tick) && spec_sequence_greater_than(client_tick, tick)
    }

    /// The state after `count` more messages have been read from the head
    /// of `input` and kept for `client_tick`, `used` bytes having been read
    /// before. Reading stops at the first message that is at fault.
    pub open spec fn receive<K: ProtocolKindType>(
        self,
        registered: Set<u16>,
        server_tick: Option<u16>,
        client_tick: u16,
        count: nat,
        input: Seq<u8>,
        used: nat,
    ) -> Received
        decreases count,
    {
        if count == 0 {
            Received { state: self, result: Ok(used) }
        } else {
            match spec_read_message::<K>(registered, input) {
                Err(e) => Received { state: self, result: Err(e) },
                Ok(parsed) => (if Self::keeps(server_tick, client_tick) {
                    self.store(client_tick, parsed.value)
                } else {
                    self
                }).receive::<K>(
                    registered,
                    server_tick,
                    client_tick,
                    (count - 1) as nat,
                    input.skip(parsed.consumed as int),
                    used + parsed.consumed,
                ),
            }
        }
    }

    /// The state after a section of commands has been received: one byte
    /// with the number of messages, then the messages.
    pub open spec fn process_incoming_messages<K: ProtocolKindType>(
        self,
        registered: Set<u16>,
        server_tick: Option<u16>,
        client_tick: u16,
        input: Seq<u8>,
    ) -> Received {
        if input.len() < 1 {
            Received { state: self, result: Err(ProtocolError::Truncated) }
        } else {
            self.receive::<K>(
                registered,
                server_tick,
                client_tick,
                input[0] as nat,
                input.skip(1),
                1,
            )
        }
    }

    /// The state after the oldest message for `tick` has been taken.
    pub open spec fn pop(self, tick: u16) -> PendingView {
        if self.ticks.contains_key(tick) && self.ticks[tick].len() > 0 {
            PendingView { ticks: self.ticks.insert(tick, self.ticks[tick].skip(1)), ..self }
        } else {
            self
        }
    }
}

fn has_message<P: ProtocolType>(messages: &Vec<EntityMessage<P>>, entity: u16) -> (found: bool)
    ensures
        found == spec_has_message(spec_messages(messages@), entity, 0),
{
    let ghost all = spec_messages(messages@);
    let mut i: usize = 0;
    while i < messages.len()
        invariant
            i <= messages@.len(),
            all == spec_messages(messages@),
            spec_has_message(all, entity, i as nat) == spec_has_message(all, entity, 0),
        decreases messages@.len() - i,
    {
        assert(all[i as int] == messages@[i as int]@);
        if messages[i].entity == entity {
            return true;
        }
        i = i + 1;
    }
    false
}

/// Buffers the messages that a client sends for its entities until the tick
/// that they are for.
pub struct EntityMessageReceiver<P: ProtocolType> {
    queued_incoming_messages: SequenceBuffer<Vec<EntityMessage<P>>>,
}

impl<P: ProtocolType> EntityMessageReceiver<P> {
    /// What this value is to the contracts.
    pub closed spec fn view(&self) -> PendingView {
        PendingView {
            head: self.queued_incoming_messages.newest(),
            ticks: self.queued_incoming_messages@.map_values(
                |messages: Vec<EntityMessage<P>>| spec_messages(messages@),
            ),
        }
    }

    /// The buffer is sound and has 64 slots, and for one entity and one
    /// tick one message waits at most.
    pub closed spec fn wf(&self) -> bool {
        &&& self.queued_incoming_messages.wf()
        &&& self.queued_incoming_messages.capacity() == MESSAGE_BUFFER_MAX_SIZE
        &&& self@.single()
    }

    /// In a receiver in order one message waits for an entity and a tick at
    /// most.
    pub proof fn lemma_single(&self)
        requires
            self.wf(),
        ensures
            self@.single(),
    {
    }

    /// A receiver without messages.
    pub fn new() -> (receiver: Self)
        ensures
            receiver.wf(),
            receiver@ == (PendingView { head: None, ticks: Map::empty() }),
    {
        let receiver = EntityMessageReceiver {
            queued_incoming_messages: SequenceBuffer::with_capacity(MESSAGE_BUFFER_MAX_SIZE),
        };
        assert(receiver@.ticks =~= Map::<u16, Seq<EntityMessageView>>::empty());
        receiver
    }

    /// Takes the oldest message that waits for the tick `server_tick`: the
    /// key of its entity, and the message.
    pub fn pop_incoming_entity_message(&mut self, server_tick: u16) -> (r: Option<(u16, P)>)
        requires
            old(self).wf(),
        ensures
            final(self).wf(),
            final(self)@ == old(self)@.pop(server_tick),
            match r {
                Some((entity, message)) => old(self)@.ticks.contains_key(server_tick) && old(
                    self,
                )@.ticks[server_tick].len() > 0 && old(self)@.ticks[server_tick][0] == (
                EntityMessageView { entity, message: message@ }),
                None => !old(self)@.ticks.contains_key(server_tick) || old(
                    self,
                )@.ticks[server_tick].len() == 0,
            },
    {
        proof {
            old(self)@.lemma_pop_single(server_tick);
        }
        let blank: Vec<EntityMessage<P>> = Vec::new();
        assert(spec_messages(blank@) =~= Seq::<EntityMessageView>::empty());
        match self.queued_incoming_messages.replace(server_tick, blank) {
            Ok(mut messages) => {
                let ghost all = spec_messages(messages@);
                if messages.len() == 0 {
                    assert(all =~= Seq::<EntityMessageView>::empty());
                    assert(self@.ticks =~= old(self)@.ticks);
                    return None;
                }
                let first = messages.remove(0);
                assert(spec_messages(messages@) =~= all.skip(1));
                let _ = self.queued_incoming_messages.replace(server_tick, messages);
                assert(self@.ticks =~= old(self)@.pop(server_tick).ticks);
                Some((first.entity, first.message))
            },
            Err(_) => {
                assert(self@.ticks =~= old(self)@.ticks);
                None
            },
        }
    }

    /// Keeps `message` for the tick `tick`.
    fn store(&mut self, tick: u16, message: EntityMessage<P>)
        requires
            old(self).wf(),
        ensures
            final(self).wf(),
            final(self)@ == old(self)@.store(tick, message@),
    {
        proof {
            old(self)@.lemma_store_single(tick, message@);
        }
        match self.queued_incoming_messages.replace(tick, Vec::new()) {
            Ok(mut messages) => {
                let ghost all = spec_messages(messages@);
                let found = has_message(&messages, message.entity);
                if !found {
                    messages.push(message);
                    assert(spec_messages(messages@) =~= all.push(message@));
                }
                let _ = self.queued_incoming_messages.replace(tick, messages);
                assert(self@.ticks =~= old(self)@.store(tick, message@).ticks);
            },
            Err(_) => {
                let ghost before = self.queued_incoming_messages@;
                let mut messages: Vec<EntityMessage<P>> = Vec::new();
                messages.push(message);
                assert(spec_messages(messages@) =~= seq![message@]);
                self.queued_incoming_messages.insert(tick, messages);
                assert(self@.ticks =~= old(self)@.store(tick, message@).ticks);
            },
        }
    }

    /// Reads one message: the key of its entity, the number of its kind,
    /// its full body.
    fn read_message<B: ReplicaBuilder<P>>(manifest: &Manifest<P, B>, reader: &mut PacketReader) -> (r: Result<
        EntityMessage<P>,
        ProtocolError,
    >)
        requires
            manifest.wf(),
            old(reader).wf(),
        ensures
            final(reader).wf(),
            final(reader).bytes() == old(reader).bytes(),
            match r {
                Ok(message) => spec_read_message::<P::Kind>(manifest@, old(reader).remaining())
                    matches Ok(parsed) && parsed.value == message@ && parsed.consumed <= old(
                    reader,
                ).remaining().len() && final(reader).remaining() == old(reader).remaining().skip(
                    parsed.consumed as int,
                ),
                Err(e) => spec_read_message::<P::Kind>(manifest@, old(reader).remaining())
                    == Err::<Parsed<EntityMessageView>, ProtocolError>(e),
            },
    {
        let ghost input = reader.remaining();
        let entity = reader.read_u16()?;
        let kind = reader.read_u16()?;
        assert(input.skip(2).skip(2) =~= input.skip(4));
        let message = manifest.create_replica(kind, reader, 0)?;
        proof {
            let parsed = spec_create_replica::<P::Kind>(manifest@, kind, input.skip(4))->Ok_0;
            lemma_read_full_bounds::<P::Kind>(kind, input.skip(4));
            assert(input.skip(4).skip(parsed.consumed as int) =~= input.skip(
                parsed.consumed as int + 4,
            ));
        }
        Ok(EntityMessage { entity, message })
    }

    /// Reads a section of messages that a client at `client_tick` has sent
    /// for its entities, and keeps each for that tick if the client is
    /// ahead of the server. At the first message that is at fault reading
    /// stops and the fault is returned; the messages before it are kept.
    pub fn process_incoming_messages<B: ReplicaBuilder<P>>(
        &mut self,
        server_tick_opt: Option<u16>,
        client_tick: u16,
        reader: &mut PacketReader,
        manifest: &Manifest<P, B>,
    ) -> (r: Result<(), ProtocolError>)
        requires
            old(self).wf(),
            manifest.wf(),
            old(reader).wf(),
        ensures
            final(self).wf(),
            final(reader).wf(),
            final(reader).bytes() == old(reader).bytes(),
            ({
                let out = old(self)@.process_incoming_messages::<P::Kind>(
                    manifest@,
                    server_tick_opt,
                    client_tick,
                    old(reader).remaining(),
                );
                &&& final(self)@ == out.state
                &&& match r {
                    Ok(_) => out.result matches Ok(used) && final(reader).remaining() == old(
                        reader,
                    ).remaining().skip(used as int),
                    Err(e) => out.result == Err::<nat, ProtocolError>(e),
                }
            }),
    {
        let ghost input = reader.remaining();
        let message_count = reader.read_u8()?;
        let keeps = match server_tick_opt {
            Some(server_tick) => sequence_greater_than(client_tick, server_tick),
            None => false,
        };
        let ghost mut used: nat = 1;
        let mut i: u8 = 0;
        while i < message_count
            invariant
                i <= message_count,
                self.wf(),
                manifest.wf(),
                reader.wf(),
                reader.bytes() == old(reader).bytes(),
                input == old(reader).remaining(),
                input.len() >= 1,
                message_count == input[0],
                keeps == PendingView::keeps(server_tick_opt, client_tick),
                used <= input.len(),
                reader.remaining() == input.skip(used as int),
                self@.receive::<P::Kind>(
                    manifest@,
                    server_tick_opt,
                    client_tick,
                    (message_count - i) as nat,
                    reader.remaining(),
                    used,
                ) == old(self)@.receive::<P::Kind>(
                    manifest@,
                    server_tick_opt,
                    client_tick,
                    message_count as nat,
                    input.skip(1),
                    1,
                ),
            decreases message_count - i,
        {
            let ghost before = reader.remaining();
            let ghost now = self@;
            let message = match Self::read_message(manifest, reader) {
                Ok(message) => message,
                Err(e) => {
                    assert(now.receive::<P::Kind>(
                        manifest@,
                        server_tick_opt,
                        client_tick,
                        (message_count - i) as nat,
                        before,
                        used,
                    ) == (Received { state: now, result: Err(e) }));
                    return Err(e);
                },
            };
            proof {
                let parsed = spec_read_message::<P::Kind>(manifest@, before)->Ok_0;
                assert(input.skip(used as int).skip(parsed.consumed as int) =~= input.skip(
                    used as int + parsed.consumed as int,
                ));
                used = used + parsed.consumed;
            }
            if keeps {
                self.store(client_tick, message);
            }
            i = i + 1;
        }
        Ok(())
    }
}

/// A message that was read took at least four bytes and no more than there
/// were.
pub proof fn lemma_message_bounds<K: ProtocolKindType>(registered: Set<u16>, input: Seq<u8>)
    ensures
        spec_read_message::<K>(registered, input) matches Ok(parsed) ==> 4 <= parsed.consumed
            <= input.len(),
{
    if let Ok(parsed) = spec_read_message::<K>(registered, input) {
        lemma_read_full_bounds::<K>(spec_read_u16(input.skip(2))->Ok_0, input.skip(4));
    }
}

/// The messages that were read took no more bytes than there were.
pub proof fn lemma_received_bounds<K: ProtocolKindType>(
    state: PendingView,
    registered: Set<u16>,
    server_tick: Option<u16>,
    client_tick: u16,
    count: nat,
    input: Seq<u8>,
    used: nat,
)
    ensures
        state.receive::<K>(registered, server_tick, client_tick, count, input, used).result
            matches Ok(total) ==> used <= total <= used + input.len(),
    decreases count,
{
    if count > 0 {
        if let Ok(parsed) = spec_read_message::<K>(registered, input) {
            lemma_message_bounds::<K>(registered, input);
            let next = if PendingView::keeps(server_tick, client_tick) {
                state.store(client_tick, parsed.value)
            } else {
                state
            };
            lemma_received_bounds::<K>(
                next,
                registered,
                server_tick,
                client_tick,
                (count - 1) as nat,
                input.skip(parsed.consumed as int),
                used + parsed.consumed,
            );
        }
    }
}

/// A section of commands that was received took at least one byte and no
/// more than there were.
pub proof fn lemma_receive_bounds<K: ProtocolKindType>(
    state: PendingView,
    registered: Set<u16>,
    server_tick: Option<u16>,
    client_tick: u16,
    input: Seq<u8>,
)
    ensures
        state.process_incoming_messages::<K>(
            registered,
            server_tick,
            client_tick,
            input,
        ).result matches Ok(total) ==> 1 <= total <= input.len(),
{
    if input.len() >= 1 {
        lemma_received_bounds::<K>(
            state,
            registered,
            server_tick,
            client_tick,
            input[0] as nat,
            input.skip(1),
            1,
        );
    }
}

} // verus!

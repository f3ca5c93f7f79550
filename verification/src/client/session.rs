//! A client as a whole: the replicas and commands it holds, the messages
//! that the server has sent it, and where its connection stands. Packets go
//! in as they come off the wire; events come out in the order in which the
//! host program is to see them.

use vstd::prelude::*;
use std::collections::VecDeque;
use vstd::slice::slice_subrange;
use crate::client::client_state::ClientState;
use crate::client::client_view::ClientView;
use crate::client::command_receiver::{
    CommandReceiver, CommandReceiverView, CommandView, QueuedCommand, spec_reset_pawns,
};
use crate::client::packet::{process_section, spec_process_section};
use crate::client::replica_action::{ActionView, ReplicaAction, spec_views};
use crate::client::replica_manager::ReplicaManager;
use crate::error::ProtocolError;
use crate::manager_type::{ManagerType, spec_manager_code, spec_manager_type};
use crate::manifest::{KindBuilder, Manifest, ReplicaBuilder, spec_create_replica};
use crate::message_writer::{
    spec_encode_message, spec_encode_plain, spec_encode_plains, spec_message_section,
    write_message, write_message_section,
};
use crate::packet_reader::{
    PacketReader, lemma_u16_round_trip, spec_read_u16, spec_u16_bytes, spec_u16_from_bytes,
    write_u16, write_u8,
};
use crate::packet_type::{
    PacketType, bare_packet, data_packet, handshake_packet, read_number, spec_bare_packet,
    spec_data_packet, spec_handshake_packet, spec_packet_number, spec_packet_type,
};
use crate::protocol_type::{ProtocolKindType, ProtocolType};
use crate::server::entity_message_receiver::EntityMessageView;
use crate::wire::{
    ReplicaView, lemma_full_round_trip, lemma_read_full_bounds, spec_well_formed, spec_write,
};

verus! {

/// What a packet tells the host program about the connection.
#[derive(Clone, Copy, Debug, PartialEq, Eq, Structural)]
pub enum Signal {
    /// Nothing.
    Quiet,
    /// The server has granted the connection.
    Connection,
    /// The server has turned the client down.
    Disconnection,
}

/// What came of a packet: what the host program is told about the
/// connection, the number to confirm to the server, and the fault at which
/// the packet was given up.
#[derive(Clone, Copy, Debug, PartialEq, Eq, Structural)]
pub struct Receipt {
    pub signal: Signal,
    pub ack: Option<u16>,
    pub fault: Option<ProtocolError>,
}

/// What a client hands to its host program.
pub enum ClientEvent<P: ProtocolType> {
    /// A message of the server.
    Message(P),
    /// What the server has done to an entity or a component.
    Replica(ReplicaAction<P>),
    /// A command to run again on the predicted copy of its pawn.
    ReplayCommand(QueuedCommand<P>),
    /// A command to run for the first time.
    NewCommand(QueuedCommand<P>),
}

/// An event, with the replicas taken by their views.
pub enum ClientEventView {
    Message(ReplicaView),
    Replica(ActionView),
    ReplayCommand(CommandView),
    NewCommand(CommandView),
}

impl<P: ProtocolType> ClientEvent<P> {
    /// What this value is to the contracts.
    pub open spec fn view(&self) -> ClientEventView {
        match self {
            ClientEvent::Message(message) => ClientEventView::Message(message@),
            ClientEvent::Replica(action) => ClientEventView::Replica(action@),
            ClientEvent::ReplayCommand(queued) => ClientEventView::ReplayCommand(
                CommandView { tick: queued.tick, pawn: queued.pawn, command: queued.command@ },
            ),
            ClientEvent::NewCommand(queued) => ClientEventView::NewCommand(
                CommandView { tick: queued.tick, pawn: queued.pawn, command: queued.command@ },
            ),
        }
    }
}

/// What a client holds.
pub struct SessionView {
    /// The replicas and the commands.
    pub state: ClientState,
    /// The messages of the server that the host program has not seen yet,
    /// oldest first.
    pub inbox: Seq<ReplicaView>,
    /// Whether the server has granted the connection.
    pub connected: bool,
    /// The tick of the server in the data packet that came last.
    pub server_tick: u16,
    /// The number of the next data packet that this client sends.
    pub next_packet: u16,
}

/// Messages, and either the number of bytes that were read on the way to
/// them or the fault at which reading stopped.
pub struct Inbox {
    pub messages: Seq<ReplicaView>,
    pub result: Result<nat, ProtocolError>,
}

/// A state of the client, and either the number of bytes that were read on
/// the way to it or the fault at which reading stopped.
pub struct Stepped {
    pub state: SessionView,
    pub result: Result<nat, ProtocolError>,
}

/// A state of the client, and what came of the packet that led to it.
pub struct Received {
    pub state: SessionView,
    pub receipt: Receipt,
}

/// A state of the client, and the event that was handed out on the way to
/// it.
pub struct Handed {
    pub state: SessionView,
    pub event: Option<ClientEventView>,
}

/// `messages` with `count` more messages that are read from the head of
/// `input`, `used` bytes having been read before: for each the number of its
/// kind and its full body. Reading stops at the first message that is at
/// fault.
pub open spec fn spec_read_plains<K: ProtocolKindType>(
    registered: Set<u16>,
    count: nat,
    input: Seq<u8>,
    messages: Seq<ReplicaView>,
    used: nat,
) -> Inbox
    decreases count,
{
    if count == 0 {
        Inbox { messages, result: Ok(used) }
    } else {
        match spec_read_u16(input) {
            Err(e) => Inbox { messages, result: Err(e) },
            Ok(kind) => match spec_create_replica::<K>(registered, kind, input.skip(2)) {
                Err(e) => Inbox { messages, result: Err(e) },
                Ok(parsed) => spec_read_plains::<K>(
                    registered,
                    (count - 1) as nat,
                    input.skip(2 + parsed.consumed as int),
                    messages.push(parsed.value),
                    used + 2 + parsed.consumed,
                ),
            },
        }
    }
}

/// The tick after `tick`.
pub open spec fn spec_next_tick(tick: u16) -> u16 {
    if tick == 65535 {
        0
    } else {
        (tick + 1) as u16
    }
}

/// The section that carries one command for `pawn` at `tick`.
pub open spec fn spec_single_command(tick: u16, pawn: u16, command: ReplicaView) -> Seq<u8> {
    seq![spec_manager_code(ManagerType::Command)] + spec_u16_bytes(tick) + seq![1u8]
        + spec_encode_message(EntityMessageView { entity: pawn, message: command })
}

/// The bytes of each of `packets`.
pub open spec fn spec_byte_views(packets: Seq<Vec<u8>>) -> Seq<Seq<u8>> {
    packets.map_values(|packet: Vec<u8>| packet@)
}

/// The packets by which a client asks for a connection: the handshake with
/// `timestamp`, and behind it the data packet that offers `credentials`, if
/// there are any.
pub open spec fn spec_knock_packets(
    session: SessionView,
    timestamp: u64,
    credentials: Option<ReplicaView>,
) -> Seq<Seq<u8>> {
    match credentials {
        Some(offered) => seq![
            spec_handshake_packet(timestamp),
            spec_data_packet(
                session.next_packet,
                spec_message_section(session.server_tick, seq![offered]),
            ),
        ],
        None => seq![spec_handshake_packet(timestamp)],
    }
}

impl SessionView {
    /// The state after one section of a data packet has been taken in. The
    /// messages of a section of the message manager wait for the host
    /// program; a section of the entity manager is applied; a section of
    /// another manager is a fault.
    pub open spec fn take_section<K: ProtocolKindType>(self, registered: Set<u16>, input: Seq<u8>)
        -> Stepped {
        if input.len() > 0 && spec_manager_type(input[0]) == ManagerType::Message {
            if input.len() < 4 {
                Stepped { state: self, result: Err(ProtocolError::Truncated) }
            } else {
                let read = spec_read_plains::<K>(
                    registered,
                    input[3] as nat,
                    input.skip(4),
                    self.inbox,
                    4,
                );
                Stepped { state: SessionView { inbox: read.messages, ..self }, result: read.result }
            }
        } else {
            let processed = spec_process_section::<K>(self.state, registered, input);
            Stepped {
                state: SessionView { state: processed.state, ..self },
                result: processed.result,
            }
        }
    }

    /// The state after the sections of a data packet have been taken in,
    /// one after another until the packet ends or a section is at fault.
    pub open spec fn take_sections<K: ProtocolKindType>(
        self,
        registered: Set<u16>,
        input: Seq<u8>,
        used: nat,
    ) -> Stepped
        decreases input.len(),
    {
        if input.len() == 0 {
            Stepped { state: self, result: Ok(used) }
        } else {
            let stepped = self.take_section::<K>(registered, input);
            match stepped.result {
                Err(e) => stepped,
                Ok(n) => if n == 0 || n > input.len() {
                    Stepped { state: stepped.state, result: Err(ProtocolError::Truncated) }
                } else {
                    stepped.state.take_sections::<K>(registered, input.skip(n as int), used + n)
                },
            }
        }
    }

    /// The tick of the server that a data packet tells: the tick of its
    /// first section, and the tick known before if the packet has none.
    pub open spec fn heard_tick(self, packet: Seq<u8>) -> u16 {
        if packet.len() >= 6 {
            spec_u16_from_bytes(packet[4], packet[5])
        } else {
            self.server_tick
        }
    }

    /// The state after `packet` has come from the server, and what came of
    /// it.
    ///
    /// The server's handshake connects a client that was not connected,
    /// and the host program is told. The server's refusal disconnects, and
    /// the host program is told. A data packet that holds its number tells
    /// the tick of the server and has its sections taken in; its number is
    /// to be confirmed, whether or not a section was at fault. Anything
    /// else changes nothing.
    pub open spec fn receive_packet<K: ProtocolKindType>(
        self,
        registered: Set<u16>,
        packet: Seq<u8>,
    ) -> Received {
        let quiet = Receipt { signal: Signal::Quiet, ack: None, fault: None };
        match spec_packet_type(packet) {
            PacketType::ServerHandshake => if self.connected {
                Received { state: self, receipt: quiet }
            } else {
                Received {
                    state: SessionView { connected: true, ..self },
                    receipt: Receipt { signal: Signal::Connection, ..quiet },
                }
            },
            PacketType::ServerReject => Received {
                state: SessionView { connected: false, ..self },
                receipt: Receipt { signal: Signal::Disconnection, ..quiet },
            },
            PacketType::Data => match spec_packet_number(packet) {
                Some(packet_index) => {
                    let stepped = (SessionView {
                        server_tick: self.heard_tick(packet),
                        ..self
                    }).take_sections::<K>(registered, packet.skip(3), 0);
                    Received {
                        state: stepped.state,
                        receipt: Receipt {
                            signal: Signal::Quiet,
                            ack: Some(packet_index),
                            fault: match stepped.result {
                                Ok(_) => None,
                                Err(e) => Some(e),
                            },
                        },
                    }
                },
                None => Received { state: self, receipt: quiet },
            },
            _ => Received { state: self, receipt: quiet },
        }
    }

    /// The state after the replays that were asked for have been served.
    pub open spec fn serve_replays(self) -> SessionView {
        SessionView {
            state: ClientState {
                client: spec_reset_pawns(self.state.client, self.state.commands.triggers, 0),
                commands: self.state.commands.process_command_replay(),
            },
            ..self
        }
    }

    /// The state after the next event has been handed to the host program,
    /// and the event.
    ///
    /// The messages of the server come first, then what the server has done
    /// to entities and components. When none of either waits, the replays
    /// that were asked for are served; then the commands to run again come,
    /// and after them the commands to run for the first time.
    pub open spec fn next_event(self) -> Handed {
        if self.inbox.len() > 0 {
            Handed {
                state: SessionView { inbox: self.inbox.skip(1), ..self },
                event: Some(ClientEventView::Message(self.inbox[0])),
            }
        } else if self.state.client.events.len() > 0 {
            Handed {
                state: SessionView {
                    state: ClientState {
                        client: ClientView {
                            events: self.state.client.events.skip(1),
                            ..self.state.client
                        },
                        ..self.state
                    },
                    ..self
                },
                event: Some(ClientEventView::Replica(self.state.client.events[0])),
            }
        } else {
            let served = self.serve_replays();
            let commands = served.state.commands;
            if commands.replays.len() > 0 {
                Handed {
                    state: SessionView {
                        state: ClientState {
                            commands: CommandReceiverView {
                                replays: commands.replays.skip(1),
                                ..commands
                            },
                            ..served.state
                        },
                        ..served
                    },
                    event: Some(ClientEventView::ReplayCommand(commands.replays[0])),
                }
            } else if commands.incoming.len() > 0 {
                Handed {
                    state: SessionView {
                        state: ClientState {
                            commands: CommandReceiverView {
                                incoming: commands.incoming.skip(1),
                                ..commands
                            },
                            ..served.state
                        },
                        ..served
                    },
                    event: Some(ClientEventView::NewCommand(commands.incoming[0])),
                }
            } else {
                Handed { state: served, event: None }
            }
        }
    }

    /// The state after the client has asked for a connection: offering
    /// credentials takes the number of a data packet.
    pub open spec fn knock(self, offers: bool) -> SessionView {
        if offers {
            SessionView { next_packet: spec_next_tick(self.next_packet), ..self }
        } else {
            self
        }
    }

    /// The state after the host program has issued `command` for `pawn`:
    /// the command is queued for the tick after the one that the server was
    /// last heard at, and a data packet has gone out.
    pub open spec fn send_command(self, pawn: u16, command: ReplicaView) -> SessionView {
        SessionView {
            state: ClientState {
                commands: self.state.commands.queue_command(
                    spec_next_tick(self.server_tick),
                    pawn,
                    command,
                ),
                ..self.state
            },
            next_packet: spec_next_tick(self.next_packet),
            ..self
        }
    }
}

/// A section that carries one message is taken in as that message: it
/// waits for the host program behind the messages that came before.
pub proof fn lemma_message_arrives<K: ProtocolKindType>(
    session: SessionView,
    registered: Set<u16>,
    tick: u16,
    message: ReplicaView,
)
    requires
        spec_well_formed::<K>(message),
        registered.contains(message.kind),
    ensures
        session.take_section::<K>(registered, spec_message_section(tick, seq![message])) == (
        Stepped {
            state: SessionView { inbox: session.inbox.push(message), ..session },
            result: Ok(spec_message_section(tick, seq![message]).len()),
        }),
{
    let messages = seq![message];
    let section = spec_message_section(tick, messages);
    let body = spec_encode_plains(messages, 0);
    let plain = spec_encode_plain(message);
    let written = spec_write(message.props);
    reveal_with_fuel(spec_encode_plains, 3);
    reveal_with_fuel(spec_read_plains, 3);
    assert(spec_encode_plains(messages, 1) =~= Seq::<u8>::empty());
    assert(body =~= plain);
    assert(section[0] == spec_manager_code(ManagerType::Message));
    assert(section.len() == 4 + body.len());
    assert(section[3] == 1u8);
    assert(section.skip(4) =~= body);
    lemma_u16_round_trip(message.kind, written);
    assert(plain.skip(2) =~= written);
    assert(written + Seq::<u8>::empty() =~= written);
    lemma_full_round_trip::<K>(message, Seq::<u8>::empty());
    assert(plain.len() == 2 + written.len());
}

/// A client.
pub struct Client<P: ProtocolType, B: ReplicaBuilder<P> = KindBuilder<P>> {
    manifest: Manifest<P, B>,
    manager: ReplicaManager<P>,
    commands: CommandReceiver<P>,
    inbox: VecDeque<P>,
    connected: bool,
    server_tick: u16,
    next_packet: u16,
}

impl<P: ProtocolType, B: ReplicaBuilder<P>> Client<P, B> {
    /// What this value is to the contracts.
    pub closed spec fn view(&self) -> SessionView {
        SessionView {
            state: ClientState { client: self.manager@, commands: self.commands@ },
            inbox: spec_views(self.inbox@),
            connected: self.connected,
            server_tick: self.server_tick,
            next_packet: self.next_packet,
        }
    }

    /// The numbers of the kinds that the client can read.
    pub closed spec fn registered(&self) -> Set<u16> {
        self.manifest@
    }

    /// The parts are sound, and the stores of the replicas agree.
    pub closed spec fn wf(&self) -> bool {
        &&& self.manifest.wf()
        &&& self.manager.wf()
        &&& self.commands.wf()
    }

    /// In a client in order the stores of the replicas agree.
    pub proof fn lemma_stores_agree(&self)
        requires
            self.wf(),
        ensures
            self@.state.client.wf(),
    {
    }

    /// A client that holds nothing and is not connected.
    pub fn new(manifest: Manifest<P, B>) -> (client: Self)
        requires
            manifest.wf(),
        ensures
            client.wf(),
            client.registered() == manifest@,
            client@ == (SessionView {
                state: ClientState {
                    client: ClientView {
                        replicas: Map::empty(),
                        pawns: Map::empty(),
                        entities: Map::empty(),
                        pawn_entities: Set::empty(),
                        component_entity: Map::empty(),
                        events: Seq::empty(),
                    },
                    commands: CommandReceiverView {
                        incoming: Seq::empty(),
                        replays: Seq::empty(),
                        history: Map::empty(),
                        triggers: Seq::empty(),
                    },
                },
                inbox: Seq::empty(),
                connected: false,
                server_tick: 0,
                next_packet: 0,
            }),
    {
        let client = Client {
            manifest,
            manager: ReplicaManager::new(),
            commands: CommandReceiver::new(),
            inbox: VecDeque::new(),
            connected: false,
            server_tick: 0,
            next_packet: 0,
        };
        assert(client@.inbox =~= Seq::<ReplicaView>::empty());
        client
    }

    /// Whether the server has granted the connection.
    pub fn is_connected(&self) -> (connected: bool)
        ensures
            connected == self@.connected,
    {
        self.connected
    }

    /// The tick of the server in the data packet that came last.
    pub fn server_tick(&self) -> (tick: u16)
        ensures
            tick == self@.server_tick,
    {
        self.server_tick
    }

    /// The replicas that the client holds.
    pub fn manager(&self) -> (manager: &ReplicaManager<P>)
        ensures
            manager@ == self@.state.client,
    {
        &self.manager
    }

    /// The commands that the client holds.
    pub fn commands(&self) -> (commands: &CommandReceiver<P>)
        ensures
            commands@ == self@.state.commands,
    {
        &self.commands
    }

    /// Gives the predicted copy of the component of the pawn `pawn` that is
    /// of the kind of `replica` the values of `replica`. Returns whether
    /// there was such a copy.
    pub fn update_pawn_component(&mut self, pawn: u16, replica: &P) -> (updated: bool)
        requires
            old(self).wf(),
        ensures
            final(self).wf(),
            final(self).registered() == old(self).registered(),
            updated == old(self)@.state.client.can_predict(pawn, replica@),
            final(self)@ == (SessionView {
                state: ClientState {
                    client: old(self)@.state.client.predict(pawn, replica@),
                    ..old(self)@.state
                },
                ..old(self)@
            }),
    {
        self.manager.update_pawn_component(&pawn, replica)
    }

    /// Reads the messages of a section of the message manager.
    fn read_messages(&mut self, count: u8, reader: &mut PacketReader) -> (r: Result<
        (),
        ProtocolError,
    >)
        requires
            old(self).wf(),
            old(reader).wf(),
        ensures
            final(self).wf(),
            final(self).registered() == old(self).registered(),
            final(reader).wf(),
            final(reader).bytes() == old(reader).bytes(),
            ({
                let read = spec_read_plains::<P::Kind>(
                    old(self).registered(),
                    count as nat,
                    old(reader).remaining(),
                    old(self)@.inbox,
                    4,
                );
                &&& final(self)@ == (SessionView { inbox: read.messages, ..old(self)@ })
                &&& match r {
                    Ok(_) => read.result matches Ok(used) && 4 <= used <= 4 + old(
                        reader,
                    ).remaining().len() && final(reader).remaining() == old(
                        reader,
                    ).remaining().skip(used - 4),
                    Err(e) => read.result == Err::<nat, ProtocolError>(e),
                }
            }),
    {
        let ghost input = reader.remaining();
        let ghost start = self@;
        let ghost mut used: nat = 0;
        let mut i: u8 = 0;
        assert(input.skip(0) =~= input);
        while i < count
            invariant
                i <= count,
                self.wf(),
                self.registered() == old(self).registered(),
                reader.wf(),
                reader.bytes() == old(reader).bytes(),
                input == old(reader).remaining(),
                start == old(self)@,
                used <= input.len(),
                reader.remaining() == input.skip(used as int),
                self@ == (SessionView { inbox: self@.inbox, ..start }),
                spec_read_plains::<P::Kind>(
                    self.registered(),
                    (count - i) as nat,
                    reader.remaining(),
                    self@.inbox,
                    4 + used,
                ) == spec_read_plains::<P::Kind>(
                    self.registered(),
                    count as nat,
                    input,
                    start.inbox,
                    4,
                ),
            decreases count - i,
        {
            let ghost before = reader.remaining();
            let ghost now = self@;
            let kind = match reader.read_u16() {
                Ok(kind) => kind,
                Err(e) => {
                    return Err(e);
                },
            };
            let message = match self.manifest.create_replica(kind, reader, 0) {
                Ok(message) => message,
                Err(e) => {
                    return Err(e);
                },
            };
            proof {
                let parsed = spec_create_replica::<P::Kind>(
                    self.registered(),
                    kind,
                    before.skip(2),
                )->Ok_0;
                lemma_read_full_bounds::<P::Kind>(kind, before.skip(2));
                assert(before.skip(2).skip(parsed.consumed as int) =~= before.skip(
                    2 + parsed.consumed as int,
                ));
                assert(input.skip(used as int).skip(2 + parsed.consumed as int) =~= input.skip(
                    used as int + 2 + parsed.consumed as int,
                ));
                used = used + 2 + parsed.consumed;
            }
            self.inbox.push_back(message);
            assert(self@.inbox =~= now.inbox.push(message@));
            i = i + 1;
        }
        Ok(())
    }

    /// Takes in one section of a data packet.
    fn take_section(&mut self, packet_index: u16, reader: &mut PacketReader) -> (r: Result<
        (),
        ProtocolError,
    >)
        requires
            old(self).wf(),
            old(reader).wf(),
        ensures
            final(self).wf(),
            final(self).registered() == old(self).registered(),
            final(reader).wf(),
            ({
                let stepped = old(self)@.take_section::<P::Kind>(
                    old(self).registered(),
                    old(reader).remaining(),
                );
                &&& final(self)@ == stepped.state
                &&& match r {
                    Ok(_) => stepped.result matches Ok(used) && 3 <= used <= old(
                        reader,
                    ).remaining().len() && final(reader).remaining() == old(
                        reader,
                    ).remaining().skip(used as int),
                    Err(e) => stepped.result == Err::<nat, ProtocolError>(e),
                }
            }),
    {
        let ghost input = reader.remaining();
        let messages = match reader.peek_u8() {
            Some(code) => matches!(ManagerType::from(code), ManagerType::Message),
            None => false,
        };
        if messages {
            let _ = reader.read_u8()?;
            let _ = reader.read_u16()?;
            let count = reader.read_u8()?;
            assert(reader.remaining() =~= input.skip(4));
            assert(count == input[3]);
            let outcome = self.read_messages(count, reader);
            proof {
                if outcome is Ok {
                    let read = spec_read_plains::<P::Kind>(
                        self.registered(),
                        count as nat,
                        input.skip(4),
                        old(self)@.inbox,
                        4,
                    );
                    let used = read.result->Ok_0;
                    assert(input.skip(4).skip(used - 4) =~= input.skip(used as int));
                }
            }
            outcome
        } else {
            process_section(
                &mut self.manager,
                &mut self.commands,
                &self.manifest,
                packet_index,
                reader,
            )
        }
    }

    /// Takes in a packet that has come from the server, whatever it is.
    pub fn receive_packet(&mut self, packet: &[u8]) -> (receipt: Receipt)
        requires
            old(self).wf(),
        ensures
            final(self).wf(),
            final(self).registered() == old(self).registered(),
            final(self)@ == old(self)@.receive_packet::<P::Kind>(
                old(self).registered(),
                packet@,
            ).state,
            receipt == old(self)@.receive_packet::<P::Kind>(
                old(self).registered(),
                packet@,
            ).receipt,
    {
        let quiet = Receipt { signal: Signal::Quiet, ack: None, fault: None };
        match PacketType::get_from_packet(packet) {
            PacketType::ServerHandshake => {
                if self.connected {
                    quiet
                } else {
                    self.connected = true;
                    Receipt { signal: Signal::Connection, ack: None, fault: None }
                }
            },
            PacketType::ServerReject => {
                self.connected = false;
                Receipt { signal: Signal::Disconnection, ack: None, fault: None }
            },
            PacketType::Data => match read_number(packet) {
                Some(packet_index) => {
                    if packet.len() >= 6 {
                        self.server_tick = (packet[4] as u16) * 256 + (packet[5] as u16);
                    }
                    let payload = slice_subrange(packet, 3, packet.len());
                    assert(payload@ =~= packet@.skip(3));
                    let fault = self.take_sections(packet_index, payload);
                    Receipt { signal: Signal::Quiet, ack: Some(packet_index), fault }
                },
                None => quiet,
            },
            _ => quiet,
        }
    }

    /// Takes in the sections of a data packet.
    fn take_sections(&mut self, packet_index: u16, payload: &[u8]) -> (fault: Option<
        ProtocolError,
    >)
        requires
            old(self).wf(),
        ensures
            final(self).wf(),
            final(self).registered() == old(self).registered(),
            ({
                let stepped = old(self)@.take_sections::<P::Kind>(
                    old(self).registered(),
                    payload@,
                    0,
                );
                &&& final(self)@ == stepped.state
                &&& fault == (match stepped.result {
                    Ok(_) => None::<ProtocolError>,
                    Err(e) => Some(e),
                })
            }),
    {
        let mut reader = PacketReader::new(payload);
        let ghost start = self@;
        let ghost mut used: nat = 0;
        while reader.has_more()
            invariant
                self.wf(),
                self.registered() == old(self).registered(),
                reader.wf(),
                start == old(self)@,
                self@.take_sections::<P::Kind>(self.registered(), reader.remaining(), used)
                    == start.take_sections::<P::Kind>(self.registered(), payload@, 0),
            decreases reader.remaining().len(),
        {
            let ghost before = reader.remaining();
            let ghost now = self@;
            match self.take_section(packet_index, &mut reader) {
                Ok(_) => {
                    proof {
                        let stepped = now.take_section::<P::Kind>(self.registered(), before);
                        used = used + stepped.result->Ok_0;
                    }
                },
                Err(e) => {
                    return Some(e);
                },
            }
        }
        None
    }

    /// Hands the next event to the host program, if there is one.
    pub fn next_event(&mut self) -> (event: Option<ClientEvent<P>>)
        requires
            old(self).wf(),
        ensures
            final(self).wf(),
            final(self).registered() == old(self).registered(),
            final(self)@ == old(self)@.next_event().state,
            match event {
                Some(handed) => old(self)@.next_event().event == Some(handed@),
                None => old(self)@.next_event().event is None,
            },
    {
        match self.inbox.pop_front() {
            Some(message) => {
                assert(self@.inbox =~= old(self)@.inbox.skip(1));
                return Some(ClientEvent::Message(message));
            },
            None => {
                assert(self@.inbox =~= old(self)@.inbox);
            },
        }
        match self.manager.pop_incoming_message() {
            Some(action) => {
                return Some(ClientEvent::Replica(action));
            },
            None => {},
        }
        self.commands.process_command_replay(&mut self.manager);
        match self.commands.pop_command_replay() {
            Some((tick, pawn, command)) => {
                return Some(ClientEvent::ReplayCommand(QueuedCommand { tick, pawn, command }));
            },
            None => {},
        }
        match self.commands.pop_command() {
            Some((tick, pawn, command)) => Some(
                ClientEvent::NewCommand(QueuedCommand { tick, pawn, command }),
            ),
            None => None,
        }
    }

    /// Issues a command for a pawn: it is queued to be run here, for the
    /// tick after the one that the server was last heard at, and the data
    /// packet that carries it to the server is returned.
    pub fn send_command(&mut self, pawn: u16, command: &P) -> (packet: Vec<u8>)
        requires
            old(self).wf(),
        ensures
            final(self).wf(),
            final(self).registered() == old(self).registered(),
            final(self)@ == old(self)@.send_command(pawn, command@),
            packet@ == spec_data_packet(
                old(self)@.next_packet,
                spec_single_command(spec_next_tick(old(self)@.server_tick), pawn, command@),
            ),
    {
        let tick: u16 = if self.server_tick == 65535 {
            0
        } else {
            self.server_tick + 1
        };
        self.commands.queue_command(tick, &pawn, command);
        let mut section: Vec<u8> = Vec::new();
        write_u8(&mut section, ManagerType::Command.to_u8());
        write_u16(&mut section, tick);
        write_u8(&mut section, 1);
        write_message(&mut section, pawn, command);
        assert(section@ =~= spec_single_command(tick, pawn, command@));
        let packet = data_packet(self.next_packet, section.as_slice());
        self.next_packet = if self.next_packet == 65535 {
            0
        } else {
            self.next_packet + 1
        };
        packet
    }

    /// The packets by which the client asks for a connection: the
    /// handshake with `timestamp`, and behind it the data packet that
    /// offers `credentials`, if the client has any.
    pub fn knock(&mut self, timestamp: u64, credentials: Option<&P>) -> (packets: Vec<Vec<u8>>)
        requires
            old(self).wf(),
        ensures
            final(self).wf(),
            final(self).registered() == old(self).registered(),
            final(self)@ == old(self)@.knock(credentials is Some),
            spec_byte_views(packets@) == spec_knock_packets(
                old(self)@,
                timestamp,
                match credentials {
                    Some(offered) => Some(offered@),
                    None => None,
                },
            ),
    {
        let mut packets: Vec<Vec<u8>> = Vec::new();
        packets.push(handshake_packet(timestamp));
        match credentials {
            Some(offered) => {
                let packet = self.send_message(offered);
                packets.push(packet);
            },
            None => {},
        }
        assert(spec_byte_views(packets@) =~= spec_knock_packets(
            old(self)@,
            timestamp,
            match credentials {
                Some(offered) => Some(offered@),
                None => None,
            },
        ));
        packets
    }

    /// What a client sends when it has sent nothing for `quiet_for`:
    /// nothing while that is less than `interval`; after that, if it is
    /// connected, a heartbeat, and if it is not, what asks for the
    /// connection once more.
    pub fn idle(
        &mut self,
        timestamp: u64,
        credentials: Option<&P>,
        quiet_for: u64,
        interval: u64,
    ) -> (packets: Vec<Vec<u8>>)
        requires
            old(self).wf(),
        ensures
            final(self).wf(),
            final(self).registered() == old(self).registered(),
            final(self)@ == (if quiet_for >= interval && !old(self)@.connected {
                old(self)@.knock(credentials is Some)
            } else {
                old(self)@
            }),
            spec_byte_views(packets@) == (if quiet_for < interval {
                Seq::<Seq<u8>>::empty()
            } else if old(self)@.connected {
                seq![spec_bare_packet(PacketType::Heartbeat)]
            } else {
                spec_knock_packets(
                    old(self)@,
                    timestamp,
                    match credentials {
                        Some(offered) => Some(offered@),
                        None => None,
                    },
                )
            }),
    {
        if quiet_for < interval {
            let packets: Vec<Vec<u8>> = Vec::new();
            assert(spec_byte_views(packets@) =~= Seq::<Seq<u8>>::empty());
            packets
        } else if self.connected {
            let mut packets: Vec<Vec<u8>> = Vec::new();
            packets.push(bare_packet(PacketType::Heartbeat));
            assert(spec_byte_views(packets@) =~= seq![spec_bare_packet(PacketType::Heartbeat)]);
            packets
        } else {
            self.knock(timestamp, credentials)
        }
    }

    /// The data packet that carries `message` to the server: a message for
    /// the host program there, or the credentials by which the client asks
    /// to be authorized.
    pub fn send_message(&mut self, message: &P) -> (packet: Vec<u8>)
        requires
            old(self).wf(),
        ensures
            final(self).wf(),
            final(self).registered() == old(self).registered(),
            final(self)@ == (SessionView {
                next_packet: spec_next_tick(old(self)@.next_packet),
                ..old(self)@
            }),
            packet@ == spec_data_packet(
                old(self)@.next_packet,
                spec_message_section(old(self)@.server_tick, seq![message@]),
            ),
    {
        let mut messages: Vec<P> = Vec::new();
        messages.push(message.copy());
        assert(spec_views(messages@) =~= seq![message@]);
        let mut section: Vec<u8> = Vec::new();
        let _ = write_message_section(&mut section, self.server_tick, &messages);
        let packet = data_packet(self.next_packet, section.as_slice());
        self.next_packet = if self.next_packet == 65535 {
            0
        } else {
            self.next_packet + 1
        };
        packet
    }
}

} // verus!

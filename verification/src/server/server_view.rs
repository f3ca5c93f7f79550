//! The server as a whole, as mathematics: its connections, its rooms, its
//! world, what each user has been told, and what the host program has not
//! been told yet.

use vstd::prelude::*;
use crate::error::ProtocolError;
use crate::manager_type::{ManagerType, spec_manager_type};
use crate::manifest::spec_create_replica;
use crate::packet_reader::{spec_read_u16, spec_u16_bytes};
use crate::protocol_type::ProtocolKindType;
use crate::server::connection_table::{ConnectionPhase, ConnectionsView, SweepAction};
use crate::server::entity_message_receiver::PendingView;
use crate::server::replication_view::spec_command_target;
use crate::server::entity_store::{ComponentView, WorldView};
use crate::server::keys::{ReplicaKey, EntityKey, UserKey};
use crate::server::replication_view::{ReplicationView, ScopedComponent};
use crate::server::room::RoomsView;
use crate::server::server_event::ServerEventView;
use crate::server::user::{Address, User};
use crate::wire::{ReplicaView, spec_mask_size};
use crate::message_writer::spec_message_section;

verus! {

/// What the server keeps for one user besides the connection itself.
pub struct UserStateView {
    pub user: UserKey,
    /// What the user has been told of the world.
    pub replication: ReplicationView,
    /// The commands of the user that wait for their tick.
    pub commands: PendingView,
    /// The number of the next packet to the user.
    pub next_packet: u16,
}

/// The place of the state of `user` among `users`, or their number if there
/// is none.
pub open spec fn spec_find_state(users: Seq<UserStateView>, user: UserKey, from: nat) -> int
    decreases users.len() - from,
{
    if from >= users.len() {
        users.len() as int
    } else if users[from as int].user == user {
        from as int
    } else {
        spec_find_state(users, user, from + 1)
    }
}

/// The state of a user that has just shaken hands.
pub open spec fn spec_fresh_state(user: UserKey) -> UserStateView {
    UserStateView {
        user,
        replication: ReplicationView {
            entities: Seq::empty(),
            components: Seq::empty(),
            in_flight: Seq::empty(),
        },
        commands: PendingView { head: None, ticks: Map::empty() },
        next_packet: 0,
    }
}

/// The components `keys[from..]` that the world has, each with the width
/// of its diff mask, added to `acc`.
pub open spec fn spec_scoped(
    components: Map<u64, ComponentView>,
    keys: Seq<u64>,
    from: nat,
    acc: Seq<ScopedComponent>,
) -> Seq<ScopedComponent>
    decreases keys.len() - from,
{
    if from >= keys.len() {
        acc
    } else if components.contains_key(keys[from as int]) {
        spec_scoped(
            components,
            keys,
            from + 1,
            acc.push(
                ScopedComponent {
                    component: keys[from as int],
                    mask_bytes: spec_mask_size(
                        components[keys[from as int]].replica.props.len(),
                    ) as u8,
                },
            ),
        )
    } else {
        spec_scoped(components, keys, from + 1, acc)
    }
}

/// A change of what a user sees.
#[derive(Clone, Copy, Debug, PartialEq, Eq, Structural)]
pub enum ScopeEvent {
    /// The entity has come into the scope of the user.
    InScope(UserKey, EntityKey),
    /// The entity has left the scope of the user.
    OutOfScope(UserKey, EntityKey),
}

/// A state of the server, and the packet that is to be sent on the way to
/// it.
pub struct Messaged {
    pub state: ServerView,
    pub packet: Option<OutgoingView>,
}

/// The server.
pub struct ServerView {
    pub connections: ConnectionsView,
    pub rooms: RoomsView,
    pub world: WorldView,
    /// What is kept for each user, in the order in which they shook hands.
    pub users: Seq<UserStateView>,
    /// What the host program has not been told yet, oldest first.
    pub events: Seq<ServerEventView>,
    /// The tick that the server has reached.
    pub tick: u16,
}

impl ServerView {
    /// The state with `event` queued for the host program.
    pub open spec fn with_event(self, event: ServerEventView) -> ServerView {
        ServerView { events: self.events.push(event), ..self }
    }

    /// Whether something is kept for `user`.
    pub open spec fn has_user(self, user: UserKey) -> bool {
        spec_find_state(self.users, user, 0) < self.users.len()
    }

    /// What is kept for `user`.
    pub open spec fn user(self, user: UserKey) -> UserStateView {
        self.users[spec_find_state(self.users, user, 0)]
    }

    /// The state with what every user has been told changed by `change`.
    pub open spec fn each_replication(
        self,
        change: spec_fn(ReplicationView) -> ReplicationView,
    ) -> ServerView {
        ServerView {
            users: self.users.map_values(
                |state: UserStateView|
                    UserStateView { replication: change(state.replication), ..state },
            ),
            ..self
        }
    }

    /// The state with what `user` has been told changed by `change`.
    pub open spec fn one_replication(
        self,
        user: UserKey,
        change: spec_fn(ReplicationView) -> ReplicationView,
    ) -> ServerView {
        if self.has_user(user) {
            let i = spec_find_state(self.users, user, 0);
            ServerView {
                users: self.users.update(
                    i,
                    UserStateView { replication: change(self.users[i].replication), ..self.users[i] },
                ),
                ..self
            }
        } else {
            self
        }
    }

    /// The state after all that was kept for `user` has been released: what
    /// it had been told, its commands, its place in the rooms.
    pub open spec fn forget_user(self, user: UserKey) -> ServerView {
        ServerView {
            users: if self.has_user(user) {
                self.users.remove(spec_find_state(self.users, user, 0))
            } else {
                self.users
            },
            rooms: self.rooms.remove_user_from(user, 0),
            ..self
        }
    }

    /// The state after `entity` has been despawned: it is gone from the
    /// world and from the rooms, and out of every user's scope.
    pub open spec fn despawn_entity(self, entity: EntityKey) -> ServerView {
        if self.world.has_entity(entity) {
            (ServerView {
                world: self.world.despawn_entity(entity),
                rooms: self.rooms.remove_entity_from(entity, 0),
                ..self
            }).each_replication(|replication: ReplicationView| replication.scope_out(entity))
        } else {
            self
        }
    }

    /// The state after `replica` has become a component of `entity`: every
    /// user that has the entity in scope is to be told.
    pub open spec fn insert_component(self, entity: EntityKey, replica: ReplicaView) -> ServerView {
        if self.world.can_insert(entity, replica.kind) {
            let scoped = ScopedComponent {
                component: self.world.next_key,
                mask_bytes: spec_mask_size(replica.props.len()) as u8,
            };
            (ServerView {
                world: self.world.insert_component(entity, replica),
                ..self
            }).each_replication(
                |replication: ReplicationView| replication.add_component(entity, scoped),
            )
        } else {
            self
        }
    }

    /// The state after the component `key` has been removed: every user
    /// that has it in scope is to be told.
    pub open spec fn remove_component(self, key: ReplicaKey) -> ServerView {
        if self.world.components.contains_key(key) {
            (ServerView {
                world: self.world.remove_component(key),
                ..self
            }).each_replication(|replication: ReplicationView| replication.remove_component(key))
        } else {
            self
        }
    }

    /// The state after the component `key` has been given the values of
    /// `replica`, where `diff` are the properties that changed by it: they
    /// are owed to every user that has the component in scope.
    pub open spec fn update_component(
        self,
        key: ReplicaKey,
        replica: ReplicaView,
        diff: Seq<u8>,
    ) -> ServerView {
        if self.world.can_update(key, replica) {
            (ServerView {
                world: self.world.update_component(key, replica),
                ..self
            }).each_replication(|replication: ReplicationView| replication.mutate(key, diff))
        } else {
            self
        }
    }

    /// Whether `user` may have a scope at all: it is connected.
    pub open spec fn connected(self, user: UserKey) -> bool {
        self.connections.phase_of(user) == ConnectionPhase::Connected
    }

    /// What `replication`, which is what `user` has been told, becomes when
    /// the scope of the user is brought up to date for `entity`: the entity
    /// comes into scope if it should be there and is not, and leaves scope
    /// if it is there and should not be.
    pub open spec fn rescope(
        self,
        user: UserKey,
        replication: ReplicationView,
        entity: EntityKey,
    ) -> ReplicationView {
        let wanted = self.rooms.in_scope(user, entity);
        if wanted && !replication.has_entity(entity) {
            replication.scope_in(
                entity,
                spec_scoped(
                    self.world.components,
                    self.world.entity(entity).components,
                    0,
                    Seq::empty(),
                ),
            )
        } else if !wanted && replication.has_entity(entity) {
            replication.scope_out(entity)
        } else {
            replication
        }
    }

    /// What `replication` becomes when the scope of `user` is brought up
    /// to date for the entities of the world from place `from` on.
    pub open spec fn rescope_from(
        self,
        user: UserKey,
        replication: ReplicationView,
        from: nat,
    ) -> ReplicationView
        decreases self.world.entities.len() - from,
    {
        if from >= self.world.entities.len() {
            replication
        } else {
            self.rescope_from(
                user,
                self.rescope(user, replication, self.world.entities[from as int].key),
                from + 1,
            )
        }
    }

    /// The changes of what `user` sees when its scope is brought up to date
    /// for the entities of the world from place `from` on, where
    /// `replication` is what the user has been told: one change for every
    /// entity that comes into scope or leaves it, in the order of the
    /// world.
    pub open spec fn scope_events_from(
        self,
        user: UserKey,
        replication: ReplicationView,
        from: nat,
    ) -> Seq<ScopeEvent>
        decreases self.world.entities.len() - from,
    {
        if from >= self.world.entities.len() {
            Seq::empty()
        } else {
            let entity = self.world.entities[from as int].key;
            let next = self.rescope(user, replication, entity);
            let rest = self.scope_events_from(user, next, from + 1);
            if next.has_entity(entity) && !replication.has_entity(entity) {
                seq![ScopeEvent::InScope(user, entity)] + rest
            } else if !next.has_entity(entity) && replication.has_entity(entity) {
                seq![ScopeEvent::OutOfScope(user, entity)] + rest
            } else {
                rest
            }
        }
    }

    /// The changes of what the users from place `i` on see when the scopes
    /// are brought up to date, user by user.
    pub open spec fn all_scope_events_from(self, i: nat) -> Seq<ScopeEvent>
        decreases self.users.len() - i,
    {
        if i >= self.users.len() {
            Seq::empty()
        } else {
            let state = self.users[i as int];
            let rest = self.all_scope_events_from(i + 1);
            if self.connected(state.user) {
                self.scope_events_from(state.user, state.replication, 0) + rest
            } else {
                rest
            }
        }
    }

    /// What is kept for a user after its scope has been brought up to date,
    /// if it is connected.
    pub open spec fn rescoped(self, state: UserStateView) -> UserStateView {
        if self.connected(state.user) {
            UserStateView {
                replication: self.rescope_from(state.user, state.replication, 0),
                ..state
            }
        } else {
            state
        }
    }

    /// The state after the scopes of all connected users have been brought
    /// up to date with the rooms and the rules.
    pub open spec fn update_entity_scopes(self) -> ServerView {
        ServerView {
            users: self.users.map_values(|state: UserStateView| self.rescoped(state)),
            ..self
        }
    }
}

/// A user that is due a heartbeat, and where to send it.
#[derive(Clone, Copy, Debug, PartialEq, Eq, Structural)]
pub struct Beat {
    pub user: UserKey,
    pub address: Address,
}

/// The heartbeats among `actions[from..]`.
pub open spec fn spec_beats(actions: Seq<SweepAction>, from: nat) -> Seq<Beat>
    decreases actions.len() - from,
{
    if from >= actions.len() {
        Seq::empty()
    } else {
        let rest = spec_beats(actions, from + 1);
        match actions[from as int] {
            SweepAction::Heartbeat(user, address) => seq![Beat { user, address }] + rest,
            SweepAction::Disconnect(_, _) => rest,
        }
    }
}

impl ServerView {
    /// The state after a handshake packet with `timestamp` has come from
    /// `address` at `now`.
    ///
    /// If the handshake replaces a connection, all that was kept for the
    /// user of that connection is released, and the host program is told
    /// that the user is disconnected. If the handshake makes a connection,
    /// a place is made for what the user will be told, and the host program
    /// is told of the connection unless the user has to be authorized
    /// first.
    pub open spec fn receive_handshake(self, address: Address, timestamp: u64, now: u64)
        -> ServerView {
        let shaken = self.connections.handshake(address, timestamp, now);
        let started = ServerView { connections: shaken.state, ..self };
        let cleared = match shaken.outcome.replaced {
            Some(departed) => started.forget_user(departed.key).with_event(
                ServerEventView::Disconnection(departed.key, departed.user),
            ),
            None => started,
        };
        match shaken.outcome.user {
            Some(user) => {
                let placed = if cleared.has_user(user) {
                    cleared
                } else {
                    ServerView { users: cleared.users.push(spec_fresh_state(user)), ..cleared }
                };
                if shaken.outcome.established {
                    placed.with_event(ServerEventView::Connection(user))
                } else {
                    placed
                }
            },
            None => cleared,
        }
    }

    /// The state after the host program has accepted `user`, which waited
    /// to be authorized: it is connected, and the host program is told.
    pub open spec fn accept_connection(self, user: UserKey) -> ServerView {
        if self.connections.phase_of(user) == ConnectionPhase::Authorizing {
            (ServerView { connections: self.connections.accept(user), ..self }).with_event(
                ServerEventView::Connection(user),
            )
        } else {
            self
        }
    }

    /// The state after the host program has rejected `user`, which waited
    /// to be authorized: the connection is dropped without a word to the
    /// host program.
    pub open spec fn reject_connection(self, user: UserKey) -> ServerView {
        if self.connections.phase_of(user) == ConnectionPhase::Authorizing {
            (ServerView { connections: self.connections.remove(user), ..self }).forget_user(user)
        } else {
            self
        }
    }

    /// The state after the connection of `user` has been ended: all that
    /// was kept for the user is released, and the host program is told.
    pub open spec fn disconnect(self, user: UserKey) -> ServerView {
        if self.connections.knows_user(user) {
            let record = self.connections.record_of(user);
            (ServerView { connections: self.connections.remove(user), ..self }).forget_user(
                user,
            ).with_event(
                ServerEventView::Disconnection(
                    user,
                    User { address: record.address, timestamp: record.timestamp },
                ),
            )
        } else {
            self
        }
    }

    /// The state after the users that `actions[from..]` name as silent have
    /// been released, each with a word to the host program.
    pub open spec fn released_from(self, actions: Seq<SweepAction>, from: nat) -> ServerView
        decreases actions.len() - from,
    {
        if from >= actions.len() {
            self
        } else {
            (match actions[from as int] {
                SweepAction::Disconnect(user, info) => self.forget_user(user).with_event(
                    ServerEventView::Disconnection(user, info),
                ),
                SweepAction::Heartbeat(_, _) => self,
            }).released_from(actions, from + 1)
        }
    }

    /// The state after time has passed to `now`: the connections that were
    /// silent for the timeout are ended, and the heartbeats that are due
    /// count as sent.
    pub open spec fn sweep(self, now: u64) -> ServerView {
        let swept = self.connections.sweep(now);
        (ServerView { connections: swept.state, ..self }).released_from(swept.actions, 0)
    }
}

/// What is kept for a user, and the events of the server.
pub struct Drained {
    pub state: UserStateView,
    pub events: Seq<ServerEventView>,
}

/// How many commands of the user wait for `tick`.
pub open spec fn spec_waiting(state: UserStateView, tick: u16) -> nat {
    if state.commands.ticks.contains_key(tick) {
        state.commands.ticks[tick].len()
    } else {
        0
    }
}

/// The commands of the user that wait for `tick` are handed to the host
/// program, oldest first; those for entities that the user does not drive
/// are dropped.
pub open spec fn spec_drain(state: UserStateView, tick: u16, events: Seq<ServerEventView>)
    -> Drained
    decreases spec_waiting(state, tick),
{
    if spec_waiting(state, tick) == 0 {
        Drained { state, events }
    } else {
        let message = state.commands.ticks[tick][0];
        spec_drain(
            UserStateView { commands: state.commands.pop(tick), ..state },
            tick,
            match spec_command_target(state.replication, message.entity) {
                Some(entity) => events.push(
                    ServerEventView::Command(state.user, entity, message.message),
                ),
                None => events,
            },
        )
    }
}

/// A packet to be sent.
pub struct OutgoingView {
    pub user: UserKey,
    pub address: Address,
    /// The number of the packet, by which the transport tells what became
    /// of it.
    pub packet_index: u16,
    pub payload: Seq<u8>,
}

/// A state of the server, and the packets to be sent.
pub struct Sending {
    pub state: ServerView,
    pub packets: Seq<OutgoingView>,
}

/// A state of the server, and either the number of bytes that were read on
/// the way to it or the fault at which reading stopped.
pub struct Taken {
    pub state: ServerView,
    pub result: Result<nat, ProtocolError>,
}

/// The bytes that open a section: the code of the manager, and the tick.
pub open spec fn spec_section_header(manager: ManagerType, tick: u16) -> Seq<u8> {
    seq![crate::manager_type::spec_manager_code(manager)] + spec_u16_bytes(tick)
}

impl ServerView {
    /// The state after the commands that wait for the server's tick have
    /// been handed to the host program, for the users from place `i` on.
    pub open spec fn commands_from(self, i: nat) -> ServerView
        decreases self.users.len() - i,
    {
        if i >= self.users.len() {
            self
        } else {
            let drained = spec_drain(self.users[i as int], self.tick, self.events);
            (ServerView {
                users: self.users.update(i as int, drained.state),
                events: drained.events,
                ..self
            }).commands_from(i + 1)
        }
    }

    /// The state after a tick has passed: the server is one tick on, the
    /// commands that waited for that tick are handed to the host program,
    /// and the host program is told of the tick.
    pub open spec fn advance_tick(self) -> ServerView {
        (ServerView {
            tick: ((self.tick as int + 1) % 65536) as u16,
            ..self
        }).commands_from(0).with_event(ServerEventView::Tick)
    }

    /// The state after the user at place `i` has been sent what it is owed,
    /// within `mtu` bytes, at `now`; and the packets so far with the packet
    /// to that user, if there was anything to send.
    pub open spec fn send_one(self, now: u64, mtu: nat, i: int, packets: Seq<OutgoingView>)
        -> Sending {
        let state = self.users[i];
        if !self.connected(state.user) || mtu < 4 {
            Sending { state: self, packets }
        } else {
            let written = state.replication.write_section(
                self.world.components,
                state.next_packet,
                (mtu - 4) as nat,
            );
            if written.count == 0 {
                Sending {
                    state: ServerView {
                        users: self.users.update(
                            i,
                            UserStateView { replication: written.view, ..state },
                        ),
                        ..self
                    },
                    packets,
                }
            } else {
                Sending {
                    state: ServerView {
                        users: self.users.update(
                            i,
                            UserStateView {
                                replication: written.view,
                                next_packet: ((state.next_packet as int + 1) % 65536) as u16,
                                ..state
                            },
                        ),
                        connections: self.connections.sent(state.user, now),
                        ..self
                    },
                    packets: packets.push(
                        OutgoingView {
                            user: state.user,
                            address: self.connections.record_of(state.user).address,
                            packet_index: state.next_packet,
                            payload: spec_section_header(ManagerType::Entity, self.tick) + (seq![
                                written.count as u8,
                            ] + written.body),
                        },
                    ),
                }
            }
        }
    }

    /// The state after `message` has been sent to `user` at `now`, and the
    /// packet to be sent: a data packet whose one section holds the message,
    /// behind the code of the message manager and the server's tick. A user
    /// that is not connected is sent nothing.
    pub open spec fn send_message(self, user: UserKey, message: ReplicaView, now: u64) -> Messaged {
        if self.connected(user) && self.has_user(user) {
            let i = spec_find_state(self.users, user, 0);
            let state = self.users[i];
            Messaged {
                state: ServerView {
                    users: self.users.update(
                        i,
                        UserStateView {
                            next_packet: ((state.next_packet as int + 1) % 65536) as u16,
                            ..state
                        },
                    ),
                    connections: self.connections.sent(user, now),
                    ..self
                },
                packet: Some(
                    OutgoingView {
                        user,
                        address: self.connections.record_of(user).address,
                        packet_index: state.next_packet,
                        payload: spec_message_section(self.tick, seq![message]),
                    },
                ),
            }
        } else {
            Messaged { state: self, packet: None }
        }
    }

    /// The state after the users from place `i` on have been sent what they
    /// are owed, and the packets to be sent.
    pub open spec fn send_from(self, now: u64, mtu: nat, i: nat, packets: Seq<OutgoingView>)
        -> Sending
        decreases self.users.len() - i,
    {
        if i >= self.users.len() {
            Sending { state: self, packets }
        } else {
            let sent = self.send_one(now, mtu, i as int, packets);
            if sent.state.users.len() == self.users.len() {
                sent.state.send_from(now, mtu, i + 1, sent.packets)
            } else {
                sent
            }
        }
    }

    /// The event by which the host program is told of a message of `user`:
    /// a request to be authorized while the user waits for that, a message
    /// otherwise.
    pub open spec fn message_event(self, user: UserKey, message: ReplicaView) -> ServerEventView {
        if self.connections.phase_of(user) == ConnectionPhase::Authorizing {
            ServerEventView::Authorization(user, message)
        } else {
            ServerEventView::Message(user, message)
        }
    }

    /// The state after `count` more messages of `user` have been read from
    /// the head of `input` and handed to the host program, `used` bytes
    /// having been read before. Reading stops at the first message that is
    /// at fault.
    pub open spec fn messages_from<K: ProtocolKindType>(
        self,
        user: UserKey,
        registered: Set<u16>,
        count: nat,
        input: Seq<u8>,
        used: nat,
    ) -> Taken
        decreases count,
    {
        if count == 0 {
            Taken { state: self, result: Ok(used) }
        } else {
            match spec_read_u16(input) {
                Err(e) => Taken { state: self, result: Err(e) },
                Ok(kind) => match spec_create_replica::<K>(registered, kind, input.skip(2)) {
                    Err(e) => Taken { state: self, result: Err(e) },
                    Ok(parsed) => self.with_event(
                        self.message_event(user, parsed.value),
                    ).messages_from::<K>(
                        user,
                        registered,
                        (count - 1) as nat,
                        input.skip(2 + parsed.consumed as int),
                        used + 2 + parsed.consumed,
                    ),
                },
            }
        }
    }

    /// The state after the commands of a section have been kept for `user`.
    pub open spec fn with_commands(self, user: UserKey, commands: PendingView) -> ServerView {
        if self.has_user(user) {
            let i = spec_find_state(self.users, user, 0);
            ServerView {
                users: self.users.update(i, UserStateView { commands, ..self.users[i] }),
                ..self
            }
        } else {
            self
        }
    }

    /// The state after one section of a data packet of `user` has been
    /// taken in: the code of its manager, the tick of the sender, and then
    /// messages, which are handed to the host program, or commands, which
    /// are kept for their tick. The number of bytes in the result is that
    /// of the whole section.
    pub open spec fn section<K: ProtocolKindType>(
        self,
        user: UserKey,
        registered: Set<u16>,
        input: Seq<u8>,
    ) -> Taken {
        if input.len() < 1 {
            Taken { state: self, result: Err(ProtocolError::Truncated) }
        } else {
            match spec_read_u16(input.skip(1)) {
                Err(e) => Taken { state: self, result: Err(e) },
                Ok(tick) => {
                    let body = input.skip(3);
                    match spec_manager_type(input[0]) {
                        ManagerType::Message => if body.len() < 1 {
                            Taken { state: self, result: Err(ProtocolError::Truncated) }
                        } else {
                            self.messages_from::<K>(
                                user,
                                registered,
                                body[0] as nat,
                                body.skip(1),
                                4,
                            )
                        },
                        ManagerType::Command => if !self.has_user(user) {
                            Taken { state: self, result: Err(ProtocolError::UnknownManager) }
                        } else {
                            let received = self.user(user).commands.process_incoming_messages::<K>(
                                registered,
                                Some(self.tick),
                                tick,
                                body,
                            );
                            Taken {
                                state: self.with_commands(user, received.state),
                                result: match received.result {
                                    Ok(used) => Ok(used + 3),
                                    Err(e) => Err(e),
                                },
                            }
                        },
                        _ => Taken { state: self, result: Err(ProtocolError::UnknownManager) },
                    }
                },
            }
        }
    }

    /// The state after the sections of a data packet of `user` have been
    /// taken in, one after another until the packet ends or a section is at
    /// fault.
    pub open spec fn sections<K: ProtocolKindType>(
        self,
        user: UserKey,
        registered: Set<u16>,
        input: Seq<u8>,
        used: nat,
    ) -> Taken
        decreases input.len(),
    {
        if input.len() == 0 {
            Taken { state: self, result: Ok(used) }
        } else {
            let taken = self.section::<K>(user, registered, input);
            match taken.result {
                Err(e) => taken,
                Ok(n) => if n == 0 || n > input.len() {
                    Taken { state: taken.state, result: Err(ProtocolError::Truncated) }
                } else {
                    taken.state.sections::<K>(user, registered, input.skip(n as int), used + n)
                },
            }
        }
    }

    /// The state after a data packet with the payload `input` has come from
    /// `address` at `now`. A packet from nobody is passed over. A packet
    /// that is at fault ends the connection that it came on, and the host
    /// program is told.
    pub open spec fn receive_data<K: ProtocolKindType>(
        self,
        address: Address,
        now: u64,
        registered: Set<u16>,
        input: Seq<u8>,
    ) -> Taken {
        let heard = ServerView { connections: self.connections.heard(address, now), ..self };
        if !self.connections.knows_address(address) {
            Taken { state: heard, result: Ok(0) }
        } else {
            let user = self.connections.records[crate::server::connection_table::spec_find_address(
                self.connections.records,
                address,
            )].user;
            let taken = heard.sections::<K>(user, registered, input, 0);
            match taken.result {
                Ok(_) => taken,
                Err(e) => Taken { state: taken.state.disconnect(user), result: Err(e) },
            }
        }
    }
}

} // verus!

//! The server: one place that holds the connections, the rooms, the world
//! and what each user has been told, and keeps them in step.

use vstd::prelude::*;
use std::collections::VecDeque;
use crate::diff_mask::DiffMask;
use crate::error::ProtocolError;
use crate::manager_type::ManagerType;
use crate::manifest::{KindBuilder, Manifest, ReplicaBuilder, spec_create_replica};
use crate::packet_reader::{PacketReader, write_bytes, write_u16, write_u8};
use crate::protocol_type::{ProtocolKindType, ProtocolType};
use crate::server::connection_table::{
    ConnectionConfig, ConnectionPhase, ConnectionTable, ConnectionsView,
};
use crate::server::entity_message_receiver::EntityMessageReceiver;
use crate::server::entity_store::{EntityStore, WorldView};
use crate::server::keys::{ReplicaKey, EntityKey, RoomKey, UserKey};
use crate::server::replication::Replication;
use crate::server::replication_view::{ReplicationView, ScopedComponent};
use crate::server::room::{Rooms, RoomsView, ScopeTriple};
use crate::server::server_event::{ServerEvent, ServerEventView, spec_events};

use crate::server::server_view::{
    OutgoingView, ScopeEvent, Sending, ServerView, Taken, UserStateView, spec_drain,
    spec_find_state, spec_fresh_state, spec_scoped, spec_section_header, spec_waiting,
};
use crate::wire::lemma_read_full_bounds;
use crate::server::user::{Address, User};
use crate::wire::spec_is_diff;

verus! {

/// What the server keeps for one user besides the connection itself.
pub struct UserState<P: ProtocolType> {
    pub(crate) user: UserKey,
    pub(crate) replication: Replication,
    pub(crate) commands: EntityMessageReceiver<P>,
    pub(crate) next_packet: u16,
}

impl<P: ProtocolType> UserState<P> {
    /// What this value is to the contracts.
    pub closed spec fn view(&self) -> UserStateView {
        UserStateView {
            user: self.user,
            replication: self.replication@,
            commands: self.commands@,
            next_packet: self.next_packet,
        }
    }

    /// The value is sound.
    pub closed spec fn wf(&self) -> bool {
        self.replication.wf() && self.commands.wf()
    }

    fn new(user: UserKey) -> (state: Self)
        ensures
            state.wf(),
            state@ == spec_fresh_state(user),
    {
        UserState {
            user,
            replication: Replication::new(),
            commands: EntityMessageReceiver::new(),
            next_packet: 0,
        }
    }
}

/// A packet to be sent.
pub struct OutgoingPacket {
    pub user: UserKey,
    pub address: Address,
    /// The number of the packet, by which the transport tells what became
    /// of it.
    pub packet_index: u16,
    pub payload: Vec<u8>,
}

impl OutgoingPacket {
    /// What this value is to the contracts.
    pub open spec fn view(&self) -> OutgoingView {
        OutgoingView {
            user: self.user,
            address: self.address,
            packet_index: self.packet_index,
            payload: self.payload@,
        }
    }
}

/// The views of a list of packets.
pub open spec fn spec_packets(packets: Seq<OutgoingPacket>) -> Seq<OutgoingView> {
    packets.map_values(|packet: OutgoingPacket| packet@)
}

/// The views of a list of user states.
pub open spec fn spec_states<P: ProtocolType>(users: Seq<UserState<P>>) -> Seq<UserStateView> {
    users.map_values(|state: UserState<P>| state@)
}

/// The server.
pub struct Server<P: ProtocolType, B: ReplicaBuilder<P> = KindBuilder<P>> {
    pub(crate) connections: ConnectionTable,
    pub(crate) rooms: Rooms,
    pub(crate) world: EntityStore<P>,
    pub(crate) users: Vec<UserState<P>>,
    pub(crate) events: VecDeque<ServerEvent<P>>,
    pub(crate) manifest: Manifest<P, B>,
    pub(crate) tick: u16,
}

impl<P: ProtocolType, B: ReplicaBuilder<P>> Server<P, B> {
    /// What this value is to the contracts.
    pub closed spec fn view(&self) -> ServerView {
        ServerView {
            connections: self.connections@,
            rooms: self.rooms@,
            world: self.world@,
            users: spec_states(self.users@),
            events: spec_events(self.events@),
            tick: self.tick,
        }
    }

    /// The kinds of replica that the server can receive.
    pub closed spec fn registered(&self) -> Set<u16> {
        self.manifest@
    }

    /// The parts are sound each by itself.
    pub closed spec fn wf(&self) -> bool {
        &&& self.connections.wf()
        &&& self.rooms.wf()
        &&& self.world.wf()
        &&& self.manifest.wf()
        &&& forall|i: int| 0 <= i < self.users@.len() ==> (#[trigger] self.users@[i]).wf()
    }

    /// In a server in order, what each user has been told is sound, and
    /// for one entity and one tick one command of a user waits at most. The
    /// laws on lost and confirmed packets rest on this.
    pub proof fn lemma_users_sound(&self, i: int)
        requires
            self.wf(),
            0 <= i < self@.users.len(),
        ensures
            self@.users[i].replication.sound(),
            self@.users[i].commands.single(),
    {
        assert(self.users@[i].wf());
        self.users@[i].replication.lemma_sound();
        self.users@[i].commands.lemma_single();
    }

    /// Nothing but what is kept for the users differs between the two.
    closed spec fn same_but_users(&self, other: Self) -> bool {
        &&& self.connections == other.connections
        &&& self.rooms == other.rooms
        &&& self.world == other.world
        &&& self.events == other.events
        &&& self.manifest == other.manifest
        &&& self.tick == other.tick
    }

    /// A server without users, rooms or entities, at tick 0. The timeout of
    /// the configuration is at least twice its heartbeat interval.
    pub fn new(config: ConnectionConfig, manifest: Manifest<P, B>) -> (server: Self)
        requires
            config.valid(),
            manifest.wf(),
        ensures
            server.wf(),
            server.registered() == manifest@,
            server@ == (ServerView {
                connections: ConnectionsView { records: Seq::empty(), next_user: 0, config },
                rooms: RoomsView { rooms: Seq::empty(), rules: Seq::empty(), next_room: 0 },
                world: WorldView { entities: Seq::empty(), components: Map::empty(), next_key: 0 },
                users: Seq::empty(),
                events: Seq::empty(),
                tick: 0,
            }),
    {
        let server = Server {
            connections: ConnectionTable::new(config),
            rooms: Rooms::new(),
            world: EntityStore::new(),
            users: Vec::new(),
            events: VecDeque::new(),
            manifest,
            tick: 0,
        };
        assert(server@.users =~= Seq::<UserStateView>::empty());
        assert(server@.events =~= Seq::<ServerEventView>::empty());
        server
    }

    /// Takes the oldest event that the host program has not seen yet.
    pub fn pop_event(&mut self) -> (r: Option<ServerEvent<P>>)
        ensures
            final(self).wf() == old(self).wf(),
            final(self).registered() == old(self).registered(),
            match r {
                Some(event) => old(self)@.events.len() > 0 && event@ == old(self)@.events[0]
                    && final(self)@ == (ServerView {
                    events: old(self)@.events.skip(1),
                    ..old(self)@
                }),
                None => old(self)@.events.len() == 0 && final(self)@ == old(self)@,
            },
    {
        let r = self.events.pop_front();
        proof {
            if r is Some {
                assert(self@.events =~= old(self)@.events.skip(1));
            } else {
                assert(self@.events =~= old(self)@.events);
            }
            assert(self.users@ == old(self).users@);
        }
        r
    }

    /// The tick that the server has reached.
    pub fn server_tick(&self) -> (tick: u16)
        ensures
            tick == self@.tick,
    {
        self.tick
    }

    // rooms

    /// Makes an empty room.
    pub fn make_room(&mut self) -> (r: Option<RoomKey>)
        requires
            old(self).wf(),
        ensures
            final(self).wf(),
            final(self).registered() == old(self).registered(),
            final(self)@ == (ServerView { rooms: final(self)@.rooms, ..old(self)@ }),
            match r {
                Some(key) => key == old(self)@.rooms.next_room && final(self)@.rooms == (RoomsView {
                    rooms: old(self)@.rooms.rooms.push(
                        crate::server::room::RoomView {
                            key,
                            users: Seq::empty(),
                            entities: Seq::empty(),
                        },
                    ),
                    next_room: (key + 1) as u64,
                    ..old(self)@.rooms
                }),
                None => old(self)@.rooms.next_room == u64::MAX && final(self)@.rooms == old(
                    self,
                )@.rooms,
            },
    {
        self.rooms.make_room()
    }

    /// Puts `user` into the room `room`.
    pub fn room_add_user(&mut self, room: RoomKey, user: UserKey)
        requires
            old(self).wf(),
        ensures
            final(self).wf(),
            final(self).registered() == old(self).registered(),
            final(self)@ == (ServerView {
                rooms: old(self)@.rooms.room_add_user(room, user),
                ..old(self)@
            }),
    {
        self.rooms.room_add_user(room, user);
    }

    /// Takes `user` out of the room `room`.
    pub fn room_remove_user(&mut self, room: RoomKey, user: UserKey)
        requires
            old(self).wf(),
        ensures
            final(self).wf(),
            final(self).registered() == old(self).registered(),
            final(self)@ == (ServerView {
                rooms: old(self)@.rooms.room_remove_user(room, user),
                ..old(self)@
            }),
    {
        self.rooms.room_remove_user(room, user);
    }

    /// Puts `entity` into the room `room`.
    pub fn room_add_entity(&mut self, room: RoomKey, entity: EntityKey)
        requires
            old(self).wf(),
        ensures
            final(self).wf(),
            final(self).registered() == old(self).registered(),
            final(self)@ == (ServerView {
                rooms: old(self)@.rooms.room_add_entity(room, entity),
                ..old(self)@
            }),
    {
        self.rooms.room_add_entity(room, entity);
    }

    /// Takes `entity` out of the room `room`.
    pub fn room_remove_entity(&mut self, room: RoomKey, entity: EntityKey)
        requires
            old(self).wf(),
        ensures
            final(self).wf(),
            final(self).registered() == old(self).registered(),
            final(self)@ == (ServerView {
                rooms: old(self)@.rooms.room_remove_entity(room, entity),
                ..old(self)@
            }),
    {
        self.rooms.room_remove_entity(room, entity);
    }

    /// The users and entities that share a room: for the host program to
    /// rule on.
    pub fn scopes(&self) -> (triples: Vec<ScopeTriple>)
        ensures
            triples@ == self@.rooms.scopes_from(0),
    {
        self.rooms.scopes()
    }

    /// Rules that `user_key` may see `entity_key`.
    pub fn accept_scope(&mut self, room_key: RoomKey, user_key: UserKey, entity_key: EntityKey)
        requires
            old(self).wf(),
        ensures
            final(self).wf(),
            final(self).registered() == old(self).registered(),
            final(self)@ == (ServerView {
                rooms: old(self)@.rooms.set_scope(user_key, entity_key, true),
                ..old(self)@
            }),
    {
        self.rooms.set_scope(user_key, entity_key, true);
    }

    /// Rules that `user_key` may not see `entity_key`.
    pub fn reject_scope(&mut self, room_key: RoomKey, user_key: UserKey, entity_key: EntityKey)
        requires
            old(self).wf(),
        ensures
            final(self).wf(),
            final(self).registered() == old(self).registered(),
            final(self)@ == (ServerView {
                rooms: old(self)@.rooms.set_scope(user_key, entity_key, false),
                ..old(self)@
            }),
    {
        self.rooms.set_scope(user_key, entity_key, false);
    }

    // the world

    /// Makes an entity without components.
    pub fn spawn_entity(&mut self) -> (r: Option<EntityKey>)
        requires
            old(self).wf(),
        ensures
            final(self).wf(),
            final(self).registered() == old(self).registered(),
            final(self)@ == (ServerView { world: final(self)@.world, ..old(self)@ }),
            match r {
                Some(key) => key == old(self)@.world.next_key && final(self)@.world == (WorldView {
                    entities: old(self)@.world.entities.push(
                        crate::server::entity_store::EntityView { key, components: Seq::empty() },
                    ),
                    next_key: (key + 1) as u64,
                    ..old(self)@.world
                }),
                None => old(self)@.world.next_key == u64::MAX && final(self)@.world == old(
                    self,
                )@.world,
            },
    {
        self.world.spawn_entity()
    }

    /// Whether the world has the entity `entity`.
    pub fn has_entity(&self, entity: EntityKey) -> (found: bool)
        ensures
            found == self@.world.has_entity(entity),
    {
        self.world.has_entity(entity)
    }

    /// The values of the component `key`.
    pub fn get_component(&self, key: ReplicaKey) -> (r: Option<&P>)
        ensures
            match r {
                Some(replica) => self@.world.components.contains_key(key) && replica@
                    == self@.world.components[key].replica,
                None => !self@.world.components.contains_key(key),
            },
    {
        self.world.get_component(key)
    }

    /// The component of the kind `kind` that `entity` has.
    pub fn component_of_kind(&self, entity: EntityKey, kind: P::Kind) -> (r: Option<ReplicaKey>)
        ensures
            r == self@.world.component_of_kind(entity, kind.spec_to_u16()),
    {
        self.world.component_of_kind(entity, kind.to_u16())
    }

    /// The component that `key` names: of its entity, the one of its kind.
    pub fn replica_key(&self, key: &crate::server::keys::ComponentKey) -> (r: Option<ReplicaKey>)
        ensures
            r == self@.world.component_of_kind(key.entity, key.kind),
    {
        self.world.component_of_kind(key.entity, key.kind)
    }

    /// Despawns `entity`: it leaves the world, the rooms and every user's
    /// scope, and its components go with it. Returns whether there was such
    /// an entity.
    pub fn despawn_entity(&mut self, entity: EntityKey) -> (found: bool)
        requires
            old(self).wf(),
        ensures
            final(self).wf(),
            final(self).registered() == old(self).registered(),
            final(self)@ == old(self)@.despawn_entity(entity),
            found == old(self)@.world.has_entity(entity),
    {
        if self.world.despawn_entity(entity).is_none() {
            return false;
        }
        self.rooms.remove_entity(entity);
        let ghost before = spec_states(self.users@);
        let ghost mid = *self;
        let mut i: usize = 0;
        while i < self.users.len()
            invariant
                i <= self.users@.len(),
                self.users@.len() == before.len(),
                self.same_but_users(mid),
                forall|k: int| 0 <= k < self.users@.len() ==> (#[trigger] self.users@[k]).wf(),
                forall|k: int|
                    0 <= k < i ==> (#[trigger] self.users@[k])@ == (UserStateView {
                        replication: before[k].replication.scope_out(entity),
                        ..before[k]
                    }),
                forall|k: int|
                    i <= k < self.users@.len() ==> (#[trigger] self.users@[k])@ == before[k],
            decreases self.users@.len() - i,
        {
            self.users[i].replication.scope_out(entity);
            i = i + 1;
        }
        proof {
            assert(spec_states(self.users@) =~= old(self)@.despawn_entity(entity).users);
        }
        true
    }

    /// Makes `replica` a component of `entity`, and brings it into the scope
    /// of every user that has the entity in scope. Returns the key of the
    /// component, or `None` if the entity does not exist, has a component of
    /// that kind already, or the keys have run out.
    pub fn insert_component(&mut self, entity: EntityKey, replica: P) -> (r: Option<ReplicaKey>)
        requires
            old(self).wf(),
        ensures
            final(self).wf(),
            final(self).registered() == old(self).registered(),
            final(self)@ == old(self)@.insert_component(entity, replica@),
            r == (if old(self)@.world.can_insert(entity, replica@.kind) {
                Some(old(self)@.world.next_key)
            } else {
                None
            }),
    {
        let mask_bytes = replica.get_diff_mask_size();
        let key = match self.world.insert_component(entity, replica) {
            Some(key) => key,
            None => {
                return None;
            },
        };
        let scoped = ScopedComponent { component: key, mask_bytes };
        let ghost before = spec_states(self.users@);
        let ghost mid = *self;
        let mut i: usize = 0;
        while i < self.users.len()
            invariant
                i <= self.users@.len(),
                self.users@.len() == before.len(),
                self.same_but_users(mid),
                forall|k: int| 0 <= k < self.users@.len() ==> (#[trigger] self.users@[k]).wf(),
                forall|k: int|
                    0 <= k < i ==> (#[trigger] self.users@[k])@ == (UserStateView {
                        replication: before[k].replication.add_component(entity, scoped),
                        ..before[k]
                    }),
                forall|k: int|
                    i <= k < self.users@.len() ==> (#[trigger] self.users@[k])@ == before[k],
            decreases self.users@.len() - i,
        {
            self.users[i].replication.add_component(entity, scoped);
            i = i + 1;
        }
        proof {
            assert(spec_states(self.users@) =~= old(self)@.insert_component(
                entity,
                replica@,
            ).users);
        }
        Some(key)
    }

    /// Removes the component `key` from its entity and from the scope of
    /// every user. Returns its values.
    pub fn remove_component(&mut self, key: ReplicaKey) -> (r: Option<P>)
        requires
            old(self).wf(),
        ensures
            final(self).wf(),
            final(self).registered() == old(self).registered(),
            final(self)@ == old(self)@.remove_component(key),
            match r {
                Some(replica) => old(self)@.world.components.contains_key(key) && replica@
                    == old(self)@.world.components[key].replica,
                None => !old(self)@.world.components.contains_key(key),
            },
    {
        let replica = match self.world.remove_component(key) {
            Some(replica) => replica,
            None => {
                return None;
            },
        };
        let ghost before = spec_states(self.users@);
        let ghost mid = *self;
        let mut i: usize = 0;
        while i < self.users.len()
            invariant
                i <= self.users@.len(),
                self.users@.len() == before.len(),
                self.same_but_users(mid),
                forall|k: int| 0 <= k < self.users@.len() ==> (#[trigger] self.users@[k]).wf(),
                forall|k: int|
                    0 <= k < i ==> (#[trigger] self.users@[k])@ == (UserStateView {
                        replication: before[k].replication.remove_component(key),
                        ..before[k]
                    }),
                forall|k: int|
                    i <= k < self.users@.len() ==> (#[trigger] self.users@[k])@ == before[k],
            decreases self.users@.len() - i,
        {
            self.users[i].replication.remove_component(key);
            i = i + 1;
        }
        proof {
            assert(spec_states(self.users@) =~= old(self)@.remove_component(key).users);
        }
        Some(replica)
    }

    /// Gives the component `key` the values of `replica`, which must be of
    /// its kind, and notes for every user that has the component in scope
    /// which properties have changed by this. Returns the mask of those
    /// properties, or `None` if there is no such component or it is of
    /// another kind.
    pub fn update_component(&mut self, key: ReplicaKey, replica: &P) -> (r: Option<DiffMask>)
        requires
            old(self).wf(),
        ensures
            final(self).wf(),
            final(self).registered() == old(self).registered(),
            match r {
                Some(mask) => old(self)@.world.can_update(key, replica@) && mask.wf()
                    && spec_is_diff(mask@, old(self)@.world.components[key].replica, replica@)
                    && final(self)@ == old(self)@.update_component(key, replica@, mask@),
                None => !old(self)@.world.can_update(key, replica@) && final(self)@ == old(self)@,
            },
    {
        let mask = match self.world.update_component(key, replica) {
            Some(mask) => mask,
            None => {
                return None;
            },
        };
        let ghost before = spec_states(self.users@);
        let ghost diff = mask@;
        let ghost mid = *self;
        let mut i: usize = 0;
        while i < self.users.len()
            invariant
                i <= self.users@.len(),
                self.users@.len() == before.len(),
                self.same_but_users(mid),
                mask.wf(),
                forall|k: int| 0 <= k < self.users@.len() ==> (#[trigger] self.users@[k]).wf(),
                diff == mask@,
                forall|k: int|
                    0 <= k < i ==> (#[trigger] self.users@[k])@ == (UserStateView {
                        replication: before[k].replication.mutate(key, diff),
                        ..before[k]
                    }),
                forall|k: int|
                    i <= k < self.users@.len() ==> (#[trigger] self.users@[k])@ == before[k],
            decreases self.users@.len() - i,
        {
            self.users[i].replication.mutate(key, &mask);
            i = i + 1;
        }
        proof {
            assert(spec_states(self.users@) =~= old(self)@.update_component(
                key,
                replica@,
                mask@,
            ).users);
        }
        Some(mask)
    }

    /// The mutator of the component `key`: notes for every user that has
    /// the component in scope that the properties in `diff` have changed.
    /// The key is the handle by which a component refers to what the users
    /// are owed; nothing else ties the two together.
    pub fn mutate(&mut self, key: ReplicaKey, diff: &DiffMask)
        requires
            old(self).wf(),
        ensures
            final(self).wf(),
            final(self).registered() == old(self).registered(),
            final(self)@ == old(self)@.each_replication(
                |replication: ReplicationView| replication.mutate(key, diff@),
            ),
    {
        let ghost before = spec_states(self.users@);
        let ghost mid = *self;
        let mut i: usize = 0;
        while i < self.users.len()
            invariant
                i <= self.users@.len(),
                self.users@.len() == before.len(),
                self.same_but_users(mid),
                forall|k: int| 0 <= k < self.users@.len() ==> (#[trigger] self.users@[k]).wf(),
                forall|k: int|
                    0 <= k < i ==> (#[trigger] self.users@[k])@ == (UserStateView {
                        replication: before[k].replication.mutate(key, diff@),
                        ..before[k]
                    }),
                forall|k: int|
                    i <= k < self.users@.len() ==> (#[trigger] self.users@[k])@ == before[k],
            decreases self.users@.len() - i,
        {
            self.users[i].replication.mutate(key, diff);
            i = i + 1;
        }
        proof {
            assert(spec_states(self.users@) =~= old(self)@.each_replication(
                |replication: ReplicationView| replication.mutate(key, diff@),
            ).users);
        }
    }

    pub(crate) fn find_state(&self, user: UserKey) -> (i: usize)
        ensures
            i == spec_find_state(self@.users, user, 0),
            i <= self.users@.len(),
            i < self.users@.len() ==> self@.users[i as int].user == user,
    {
        let mut i: usize = 0;
        let ghost users = self@.users;
        while i < self.users.len()
            invariant
                i <= self.users@.len(),
                users == self@.users,
                spec_find_state(users, user, i as nat) == spec_find_state(users, user, 0),
            decreases self.users@.len() - i,
        {
            assert(users[i as int] == self.users@[i as int]@);
            if self.users[i].user == user {
                return i;
            }
            i = i + 1;
        }
        i
    }

    /// Gives `user` the entity `entity` to drive.
    pub fn assign_pawn_entity(&mut self, user: UserKey, entity: EntityKey)
        requires
            old(self).wf(),
        ensures
            final(self).wf(),
            final(self).registered() == old(self).registered(),
            final(self)@ == old(self)@.one_replication(
                user,
                |replication: ReplicationView| replication.assign_pawn(entity),
            ),
    {
        let i = self.find_state(user);
        if i < self.users.len() {
            self.users[i].replication.assign_pawn(entity);
            proof {
                let after = old(self)@.one_replication(
                    user,
                    |replication: ReplicationView| replication.assign_pawn(entity),
                );
                assert(self@.users =~= after.users);
            }
        }
    }

    /// Takes the entity `entity` from `user`.
    pub fn unassign_pawn_entity(&mut self, user: UserKey, entity: EntityKey)
        requires
            old(self).wf(),
        ensures
            final(self).wf(),
            final(self).registered() == old(self).registered(),
            final(self)@ == old(self)@.one_replication(
                user,
                |replication: ReplicationView| replication.unassign_pawn(entity),
            ),
    {
        let i = self.find_state(user);
        if i < self.users.len() {
            self.users[i].replication.unassign_pawn(entity);
            proof {
                let after = old(self)@.one_replication(
                    user,
                    |replication: ReplicationView| replication.unassign_pawn(entity),
                );
                assert(self@.users =~= after.users);
            }
        }
    }

    /// Takes in what the transport tells of the packet `packet_index` that
    /// was sent to `user`: that it has arrived, or that it is lost.
    pub fn notify_packet(&mut self, user: UserKey, packet_index: u16, acked: bool)
        requires
            old(self).wf(),
        ensures
            final(self).wf(),
            final(self).registered() == old(self).registered(),
            final(self)@ == old(self)@.settle(user, packet_index, acked),
    {
        let i = self.find_state(user);
        if i < self.users.len() {
            self.users[i].replication.notify(packet_index, acked);
            proof {
                let after = old(self)@.one_replication(
                    user,
                    |replication: ReplicationView| replication.settle(packet_index, acked),
                );
                assert(self@.users =~= after.users);
            }
        }
    }

    /// The components of `entity`, each with the width of its diff mask.
    fn scoped_components(&self, entity: EntityKey) -> (scoped: Vec<ScopedComponent>)
        requires
            self@.world.has_entity(entity),
        ensures
            scoped@ == spec_scoped(
                self@.world.components,
                self@.world.entity(entity).components,
                0,
                Seq::empty(),
            ),
    {
        let mut scoped: Vec<ScopedComponent> = Vec::new();
        let keys = match self.world.entity_components(entity) {
            Some(keys) => keys,
            None => Vec::new(),
        };
        let mut i: usize = 0;
        while i < keys.len()
            invariant
                i <= keys@.len(),
                spec_scoped(self@.world.components, keys@, i as nat, scoped@) == spec_scoped(
                    self@.world.components,
                    keys@,
                    0,
                    Seq::empty(),
                ),
            decreases keys@.len() - i,
        {
            match self.world.get_component(keys[i]) {
                Some(replica) => {
                    scoped.push(
                        ScopedComponent {
                            component: keys[i],
                            mask_bytes: replica.get_diff_mask_size(),
                        },
                    );
                },
                None => {},
            }
            i = i + 1;
        }
        scoped
    }

    /// Brings the scope of every connected user up to date: an entity that
    /// shares a room with the user, and that no rule keeps from it, comes
    /// into its scope; an entity in its scope of which that no longer holds
    /// leaves it. Returns the changes, one for every entity that has come
    /// into a scope or left one.
    pub fn update_entity_scopes(&mut self) -> (events: Vec<ScopeEvent>)
        requires
            old(self).wf(),
        ensures
            final(self).wf(),
            final(self).registered() == old(self).registered(),
            final(self)@ == old(self)@.update_entity_scopes(),
            events@ == old(self)@.all_scope_events_from(0),
    {
        let ghost start = self@;
        let ghost before = spec_states(self.users@);
        let mut events: Vec<ScopeEvent> = Vec::new();
        let mut i: usize = 0;
        while i < self.users.len()
            invariant
                i <= self.users@.len(),
                self.users@.len() == before.len(),
                self.wf(),
                self.registered() == old(self).registered(),
                self@ == (ServerView { users: self@.users, ..start }),
                start == old(self)@,
                before == start.users,
                events@ + start.all_scope_events_from(i as nat) == start.all_scope_events_from(0),
                forall|k: int|
                    0 <= k < i ==> (#[trigger] self.users@[k])@ == start.rescoped(before[k]),
                forall|k: int|
                    i <= k < self.users@.len() ==> (#[trigger] self.users@[k])@ == before[k],
            decreases self.users@.len() - i,
        {
            let user = self.users[i].user;
            let ghost listed = events@;
            let ghost later = start.all_scope_events_from((i + 1) as nat);
            if matches!(self.connections.phase(user), ConnectionPhase::Connected) {
                let ghost first = self.users@[i as int]@.replication;
                let ghost mine = start.scope_events_from(user, first, 0);
                let n = self.world.entity_count();
                let mut e: usize = 0;
                while e < n
                    invariant
                        e <= n,
                        i < self.users@.len(),
                        self.users@.len() == before.len(),
                        n == start.world.entities.len(),
                        self.wf(),
                        self.registered() == old(self).registered(),
                        self@ == (ServerView { users: self@.users, ..start }),
                        self.users@[i as int].user == user,
                        self.users@[i as int]@ == (UserStateView {
                            replication: self.users@[i as int]@.replication,
                            ..before[i as int]
                        }),
                        start.rescope_from(
                            user,
                            self.users@[i as int]@.replication,
                            e as nat,
                        ) == start.rescope_from(user, first, 0),
                        events@ + start.scope_events_from(
                            user,
                            self.users@[i as int]@.replication,
                            e as nat,
                        ) == listed + mine,
                        forall|k: int|
                            0 <= k < i ==> (#[trigger] self.users@[k])@ == start.rescoped(
                                before[k],
                            ),
                        forall|k: int|
                            i < k < self.users@.len() ==> (#[trigger] self.users@[k])@
                                == before[k],
                    decreases n - e,
                {
                    let entity = self.world.entity_key_at(e);
                    let wanted = self.rooms.in_scope(user, entity);
                    let present = self.users[i].replication.has_entity(entity);
                    let ghost now = self.users@[i as int]@.replication;
                    let ghost sofar = events@;
                    if wanted && !present {
                        proof {
                            crate::server::entity_store::lemma_find_entity(
                                start.world.entities,
                                entity,
                            );
                        }
                        let scoped = self.scoped_components(entity);
                        if self.users[i].replication.scope_in(entity, &scoped) {
                            events.push(ScopeEvent::InScope(user, entity));
                        }
                    } else if !wanted && present {
                        self.users[i].replication.scope_out(entity);
                        if !self.users[i].replication.has_entity(entity) {
                            events.push(ScopeEvent::OutOfScope(user, entity));
                        }
                    }
                    proof {
                        let next = self.users@[i as int]@.replication;
                        assert(next == start.rescope(user, now, entity));
                        crate::server::replication_view::lemma_scope_presence(
                            now,
                            entity,
                            spec_scoped(
                                start.world.components,
                                start.world.entity(entity).components,
                                0,
                                Seq::empty(),
                            ),
                        );
                        let rest = start.scope_events_from(user, next, (e + 1) as nat);
                        if events@.len() > sofar.len() {
                            let event = events@[sofar.len() as int];
                            assert(events@ =~= sofar.push(event));
                            assert(sofar.push(event) + rest =~= sofar + (seq![event] + rest));
                        }
                    }
                    e = e + 1;
                }
                proof {
                    assert(events@ + Seq::<ScopeEvent>::empty() =~= events@);
                    assert((listed + mine) + later =~= listed + (mine + later));
                }
            }
            i = i + 1;
        }
        proof {
            assert(spec_states(self.users@) =~= start.update_entity_scopes().users);
            assert(events@ + Seq::<ScopeEvent>::empty() =~= events@);
        }
        events
    }

    // connections

    /// Releases all that is kept for `user`.
    fn forget_user(&mut self, user: UserKey)
        requires
            old(self).wf(),
        ensures
            final(self).wf(),
            final(self).registered() == old(self).registered(),
            final(self)@ == old(self)@.forget_user(user),
    {
        let i = self.find_state(user);
        if i < self.users.len() {
            self.users.remove(i);
        }
        self.rooms.remove_user(user);
        proof {
            assert(self@.users =~= old(self)@.forget_user(user).users);
            assert(self@.events == old(self)@.events);
        }
    }

    fn push_event(&mut self, event: ServerEvent<P>)
        ensures
            final(self).wf() == old(self).wf(),
            final(self).registered() == old(self).registered(),
            final(self)@ == old(self)@.with_event(event@),
    {
        self.events.push_back(event);
        proof {
            assert(self@.events =~= old(self)@.events.push(event@));
            assert(self.users@ == old(self).users@);
        }
    }

    /// Takes in a handshake packet with `timestamp` that has come from
    /// `address` at `now`. Returns whether the handshake is to be answered;
    /// it is not only if the server has run out of user keys.
    pub fn receive_handshake(&mut self, address: Address, timestamp: u64, now: u64) -> (answer:
        bool)
        requires
            old(self).wf(),
        ensures
            final(self).wf(),
            final(self).registered() == old(self).registered(),
            final(self)@ == old(self)@.receive_handshake(address, timestamp, now),
            answer == (old(self)@.connections.handshake(address, timestamp, now).outcome.user
                is Some),
    {
        let outcome = self.connections.handshake(address, timestamp, now);
        match outcome.replaced {
            Some(departed) => {
                self.forget_user(departed.key);
                self.push_event(ServerEvent::Disconnection(departed.key, departed.user));
            },
            None => {},
        }
        match outcome.user {
            Some(user) => {
                if self.find_state(user) >= self.users.len() {
                    let ghost before = self@.users;
                    self.users.push(UserState::new(user));
                    assert(self@.users =~= before.push(spec_fresh_state(user)));
                    assert(self@.events == spec_events(self.events@));
                }
                if outcome.established {
                    self.push_event(ServerEvent::Connection(user));
                }
                true
            },
            None => false,
        }
    }

    /// Notes that a packet has come from `address` at `now`. Returns the
    /// user that is connected from there.
    pub fn heard(&mut self, address: &Address, now: u64) -> (r: Option<UserKey>)
        requires
            old(self).wf(),
        ensures
            final(self).wf(),
            final(self).registered() == old(self).registered(),
            final(self)@ == (ServerView {
                connections: old(self)@.connections.heard(*address, now),
                ..old(self)@
            }),
            r == (if old(self)@.connections.knows_address(*address) {
                Some(
                    old(self)@.connections.records[crate::server::connection_table::spec_find_address(
                        old(self)@.connections.records,
                        *address,
                    )].user,
                )
            } else {
                None
            }),
    {
        self.connections.heard(address, now)
    }

    /// Where the connection of `user` stands.
    pub fn connection_phase(&self, user: UserKey) -> (phase: ConnectionPhase)
        ensures
            phase == self@.connections.phase_of(user),
    {
        self.connections.phase(user)
    }

    /// What the server knows of `user`.
    pub fn get_user(&self, user: UserKey) -> (r: Option<User>)
        ensures
            r == (if self@.connections.knows_user(user) {
                Some(
                    User {
                        address: self@.connections.record_of(user).address,
                        timestamp: self@.connections.record_of(user).timestamp,
                    },
                )
            } else {
                None
            }),
    {
        self.connections.get_user(user)
    }

    /// Where the users are reached, in the order in which they shook hands.
    pub fn get_clients(&self) -> (clients: Vec<Address>)
        ensures
            clients@.len() == self@.connections.records.len(),
            forall|i: int|
                0 <= i < clients@.len() ==> clients@[i] == self@.connections.records[i].address,
    {
        let mut clients: Vec<Address> = Vec::new();
        let n = self.connections.len();
        let mut i: usize = 0;
        while i < n
            invariant
                i <= n,
                n == self@.connections.records.len(),
                clients@.len() == i,
                forall|k: int|
                    0 <= k < i ==> clients@[k] == self@.connections.records[k].address,
            decreases n - i,
        {
            clients.push(self.connections.address_at(i));
            i = i + 1;
        }
        clients
    }

    /// The number of the next packet to the user that is reached at `addr`.
    pub fn get_sequence_number(&self, addr: &Address) -> (r: Option<u16>)
        ensures
            r == (if self@.connections.knows_address(*addr) && self@.has_user(
                self@.connections.records[crate::server::connection_table::spec_find_address(
                    self@.connections.records,
                    *addr,
                )].user,
            ) {
                Some(
                    self@.user(
                        self@.connections.records[
                            crate::server::connection_table::spec_find_address(
                                self@.connections.records,
                                *addr,
                            )].user,
                    ).next_packet,
                )
            } else {
                None
            }),
    {
        match self.connections.user_at(addr) {
            Some(user) => {
                let i = self.find_state(user);
                if i < self.users.len() {
                    assert(self@.users[i as int] == self.users@[i as int]@);
                    Some(self.users[i].next_packet)
                } else {
                    None
                }
            },
            None => None,
        }
    }

    /// How many users have shaken hands and are not gone.
    pub fn get_users_count(&self) -> (n: usize)
        ensures
            n == self@.connections.records.len(),
    {
        self.connections.len()
    }

    /// Accepts a user that waits to be authorized.
    pub fn accept_connection(&mut self, user: UserKey)
        requires
            old(self).wf(),
        ensures
            final(self).wf(),
            final(self).registered() == old(self).registered(),
            final(self)@ == old(self)@.accept_connection(user),
    {
        if self.connections.accept_connection(user) {
            self.push_event(ServerEvent::Connection(user));
        }
    }

    /// Rejects a user that waits to be authorized. Returns where the
    /// rejection is to be sent.
    pub fn reject_connection(&mut self, user: UserKey) -> (r: Option<Address>)
        requires
            old(self).wf(),
        ensures
            final(self).wf(),
            final(self).registered() == old(self).registered(),
            final(self)@ == old(self)@.reject_connection(user),
            r == (if old(self)@.connections.phase_of(user) == ConnectionPhase::Authorizing {
                Some(old(self)@.connections.record_of(user).address)
            } else {
                None
            }),
    {
        match self.connections.reject_connection(user) {
            Some(address) => {
                self.forget_user(user);
                Some(address)
            },
            None => None,
        }
    }

    /// Ends the connection of `user`: on the wish of the host program, or
    /// because a packet to the user could not be sent.
    pub fn user_force_disconnect(&mut self, user: UserKey)
        requires
            old(self).wf(),
        ensures
            final(self).wf(),
            final(self).registered() == old(self).registered(),
            final(self)@ == old(self)@.disconnect(user),
    {
        match self.connections.disconnect(user) {
            Some(info) => {
                self.forget_user(user);
                self.push_event(ServerEvent::Disconnection(user, info));
            },
            None => {},
        }
    }

    /// Lets time pass to `now`: ends the connections that were silent for
    /// the timeout, telling the host program of each, and returns the users
    /// that are due a heartbeat, which counts as sent.
    pub fn sweep(&mut self, now: u64) -> (beats: Vec<crate::server::server_view::Beat>)
        requires
            old(self).wf(),
        ensures
            final(self).wf(),
            final(self).registered() == old(self).registered(),
            final(self)@ == old(self)@.sweep(now),
            beats@ == crate::server::server_view::spec_beats(
                old(self)@.connections.sweep(now).actions,
                0,
            ),
    {
        let actions = self.connections.sweep(now);
        let mut beats: Vec<crate::server::server_view::Beat> = Vec::new();
        let ghost start = self@;
        let mut i: usize = 0;
        while i < actions.len()
            invariant
                i <= actions@.len(),
                self.wf(),
                self.registered() == old(self).registered(),
                self@.released_from(actions@, i as nat) == start.released_from(actions@, 0),
                beats@ + crate::server::server_view::spec_beats(actions@, i as nat)
                    == crate::server::server_view::spec_beats(actions@, 0),
            decreases actions@.len() - i,
        {
            let ghost rest = crate::server::server_view::spec_beats(actions@, (i + 1) as nat);
            let ghost sofar = beats@;
            match actions[i] {
                crate::server::connection_table::SweepAction::Disconnect(user, info) => {
                    self.forget_user(user);
                    self.push_event(ServerEvent::Disconnection(user, info));
                },
                crate::server::connection_table::SweepAction::Heartbeat(user, address) => {
                    let beat = crate::server::server_view::Beat { user, address };
                    beats.push(beat);
                    assert(sofar.push(beat) + rest =~= sofar + (seq![beat] + rest));
                },
            }
            i = i + 1;
        }
        assert(beats@ + Seq::<crate::server::server_view::Beat>::empty() =~= beats@);
        beats
    }

    // ticks

    /// Hands the commands of the user at place `i` that wait for the
    /// server's tick to the host program.
    fn drain_commands(&mut self, i: usize)
        requires
            old(self).wf(),
            i < old(self)@.users.len(),
        ensures
            final(self).wf(),
            final(self).registered() == old(self).registered(),
            ({
                let drained = spec_drain(
                    old(self)@.users[i as int],
                    old(self)@.tick,
                    old(self)@.events,
                );
                final(self)@ == (ServerView {
                    users: old(self)@.users.update(i as int, drained.state),
                    events: drained.events,
                    ..old(self)@
                })
            }),
    {
        let ghost start = self@;
        assert(start.users[i as int] == self.users@[i as int]@);
        assert(self@.users =~= start.users.update(i as int, start.users[i as int]));
        loop
            invariant
                i < self.users@.len(),
                self.wf(),
                self.registered() == old(self).registered(),
                self@ == (ServerView { users: self@.users, events: self@.events, ..start }),
                self@.users.len() == start.users.len(),
                self@.users == start.users.update(i as int, self@.users[i as int]),
                spec_drain(self@.users[i as int], self@.tick, self@.events) == spec_drain(
                    start.users[i as int],
                    start.tick,
                    start.events,
                ),
            ensures
                spec_waiting(self@.users[i as int], self@.tick) == 0,
                i < self.users@.len(),
                self.wf(),
                self.registered() == old(self).registered(),
                self@ == (ServerView { users: self@.users, events: self@.events, ..start }),
                self@.users == start.users.update(i as int, self@.users[i as int]),
                spec_drain(self@.users[i as int], self@.tick, self@.events) == spec_drain(
                    start.users[i as int],
                    start.tick,
                    start.events,
                ),
            decreases spec_waiting(self@.users[i as int], self@.tick),
        {
            let ghost now = self@;
            let ghost state = now.users[i as int];
            assert(state == self.users@[i as int]@);
            let tick = self.tick;
            match self.users[i].commands.pop_incoming_entity_message(tick) {
                Some((local, message)) => {
                    let target = self.users[i].replication.command_target(local);
                    let user = self.users[i].user;
                    proof {
                        assert(self.users@[i as int]@ == (UserStateView {
                            commands: state.commands.pop(tick),
                            ..state
                        }));
                        assert forall|k: int|
                            0 <= k < self@.users.len() && k != i implies self@.users[k]
                            == start.users[k] by {
                            assert(self.users@[k]@ == now.users[k]);
                        }
                        assert(self@.users =~= start.users.update(i as int, self@.users[i as int]));
                        assert(self@.events == now.events);
                    }
                    match target {
                        Some(entity) => {
                            self.push_event(ServerEvent::Command(user, entity, message));
                        },
                        None => {},
                    }
                },
                None => {
                    proof {
                        assert(self.users@[i as int]@ == state);
                        assert forall|k: int|
                            0 <= k < self@.users.len() && k != i implies self@.users[k]
                            == start.users[k] by {
                            assert(self.users@[k]@ == now.users[k]);
                        }
                        assert(self@.users =~= start.users.update(i as int, self@.users[i as int]));
                        assert(self@.events == now.events);
                    }
                    break ;
                },
            }
        }
        proof {
            let drained = spec_drain(start.users[i as int], start.tick, start.events);
            assert(self@.events == drained.events);
        }
    }

    /// Lets a tick pass: the server is one tick on, the commands of the
    /// users that waited for that tick are handed to the host program, and
    /// the host program is told of the tick.
    pub fn advance_tick(&mut self)
        requires
            old(self).wf(),
        ensures
            final(self).wf(),
            final(self).registered() == old(self).registered(),
            final(self)@ == old(self)@.advance_tick(),
    {
        self.tick = self.tick.wrapping_add(1);
        let ghost start = self@;
        proof {
            assert(self.users@ == old(self).users@);
            assert(start == (ServerView {
                tick: ((old(self)@.tick as int + 1) % 65536) as u16,
                ..old(self)@
            }));
        }
        let n = self.users.len();
        let mut i: usize = 0;
        while i < n
            invariant
                i <= n,
                n == self@.users.len(),
                self.wf(),
                self.registered() == old(self).registered(),
                self@.commands_from(i as nat) == start.commands_from(0),
            decreases n - i,
        {
            self.drain_commands(i);
            i = i + 1;
        }
        self.push_event(ServerEvent::Tick);
    }

    // sending

    /// Writes what the user at place `i` is owed into a packet.
    fn send_one(&mut self, now: u64, mtu: usize, i: usize, packets: &mut Vec<OutgoingPacket>)
        requires
            old(self).wf(),
            i < old(self)@.users.len(),
        ensures
            final(self).wf(),
            final(self).registered() == old(self).registered(),
            final(self)@.users.len() == old(self)@.users.len(),
            (Sending { state: final(self)@, packets: spec_packets(final(packets)@) }) == old(
                self,
            )@.send_one(now, mtu as nat, i as int, spec_packets(old(packets)@)),
    {
        let ghost start = self@;
        assert(start.users[i as int] == self.users@[i as int]@);
        let user = self.users[i].user;
        if mtu < 4 || !matches!(self.connections.phase(user), ConnectionPhase::Connected) {
            return ;
        }
        let address = match self.connections.get_user(user) {
            Some(info) => info.address,
            None => {
                return ;
            },
        };
        let packet_index = self.users[i].next_packet;
        let section = self.users[i].replication.write_section(&self.world, packet_index, mtu - 3);
        proof {
            assert(self.users@[i as int]@.commands == start.users[i as int].commands);
        }
        if section[0] == 0 {
            proof {
                let sent = start.send_one(now, mtu as nat, i as int, spec_packets(old(packets)@));
                assert(self@.users =~= sent.state.users);
                assert(self@.events == start.events);
            }
            return ;
        }
        let mut payload: Vec<u8> = Vec::new();
        write_u8(&mut payload, ManagerType::Entity.to_u8());
        write_u16(&mut payload, self.tick);
        write_bytes(&mut payload, &section);
        self.users[i].next_packet = packet_index.wrapping_add(1);
        self.connections.sent(user, now);
        let ghost listed = spec_packets(packets@);
        let packet = OutgoingPacket { user, address, packet_index, payload };
        packets.push(packet);
        proof {
            let sent = start.send_one(now, mtu as nat, i as int, listed);
            assert(payload@ =~= spec_section_header(ManagerType::Entity, start.tick) + section@);
            assert(spec_packets(packets@) =~= listed.push(packet@));
            assert(self@.users =~= sent.state.users);
            assert(self@.events == start.events);
        }
    }

    /// Sends every connected user what it is owed: for each, the entity
    /// section of one packet of at most `mtu` bytes, behind the code of the
    /// entity manager and the server's tick. Users that are owed nothing
    /// get no packet. Returns the packets for the transport to send.
    pub fn send_all_updates(&mut self, now: u64, mtu: usize) -> (packets: Vec<OutgoingPacket>)
        requires
            old(self).wf(),
        ensures
            final(self).wf(),
            final(self).registered() == old(self).registered(),
            (Sending { state: final(self)@, packets: spec_packets(packets@) }) == old(
                self,
            )@.send_from(now, mtu as nat, 0, Seq::empty()),
    {
        let mut packets: Vec<OutgoingPacket> = Vec::new();
        assert(spec_packets(packets@) =~= Seq::<OutgoingView>::empty());
        let n = self.users.len();
        let mut i: usize = 0;
        while i < n
            invariant
                i <= n,
                n == self@.users.len(),
                self.wf(),
                self.registered() == old(self).registered(),
                self@.send_from(now, mtu as nat, i as nat, spec_packets(packets@)) == old(
                    self,
                )@.send_from(now, mtu as nat, 0, Seq::empty()),
            decreases n - i,
        {
            self.send_one(now, mtu, i, &mut packets);
            i = i + 1;
        }
        packets
    }

    /// Sends `message` to `user`: the data packet that carries it is
    /// returned for the transport to send. Nothing tells whether it
    /// arrives. A user that is not connected is sent nothing.
    pub fn send_message(&mut self, user: UserKey, message: &P, now: u64) -> (packet: Option<
        OutgoingPacket,
    >)
        requires
            old(self).wf(),
        ensures
            final(self).wf(),
            final(self).registered() == old(self).registered(),
            final(self)@ == old(self)@.send_message(user, message@, now).state,
            match packet {
                Some(sent) => old(self)@.send_message(user, message@, now).packet == Some(sent@),
                None => old(self)@.send_message(user, message@, now).packet is None,
            },
    {
        let ghost start = self@;
        let i = self.find_state(user);
        if i >= self.users.len() || !matches!(
            self.connections.phase(user),
            ConnectionPhase::Connected
        ) {
            return None;
        }
        let address = match self.connections.get_user(user) {
            Some(info) => info.address,
            None => {
                return None;
            },
        };
        assert(start.users[i as int] == self.users@[i as int]@);
        let packet_index = self.users[i].next_packet;
        let mut messages: Vec<P> = Vec::new();
        messages.push(message.copy());
        assert(crate::client::replica_action::spec_views(messages@) =~= seq![message@]);
        let mut payload: Vec<u8> = Vec::new();
        let _ = crate::message_writer::write_message_section(&mut payload, self.tick, &messages);
        self.users[i].next_packet = packet_index.wrapping_add(1);
        self.connections.sent(user, now);
        proof {
            let sent = start.send_message(user, message@, now);
            assert(self@.users =~= sent.state.users);
            assert(self@.events == start.events);
        }
        Some(OutgoingPacket { user, address, packet_index, payload })
    }

    // receiving

    /// Reads the messages of a section and hands them to the host program.
    fn receive_messages(&mut self, user: UserKey, count: u8, reader: &mut PacketReader) -> (r:
        Result<(), ProtocolError>)
        requires
            old(self).wf(),
            old(reader).wf(),
        ensures
            final(self).wf(),
            final(self).registered() == old(self).registered(),
            final(reader).wf(),
            final(reader).bytes() == old(reader).bytes(),
            ({
                let taken = old(self)@.messages_from::<P::Kind>(
                    user,
                    old(self).registered(),
                    count as nat,
                    old(reader).remaining(),
                    4,
                );
                &&& final(self)@ == taken.state
                &&& match r {
                    Ok(_) => taken.result matches Ok(used) && 4 <= used <= 4 + old(
                        reader,
                    ).remaining().len() && final(reader).remaining() == old(
                        reader,
                    ).remaining().skip(used - 4),
                    Err(e) => taken.result == Err::<nat, ProtocolError>(e),
                }
            }),
    {
        let ghost input = reader.remaining();
        let ghost start = self@;
        let ghost mut used: nat = 0;
        let mut i: u8 = 0;
        assert(input.skip(0) =~= input);
        while i < count
            invariant
                i <= count,
                self.wf(),
                self.registered() == old(self).registered(),
                reader.wf(),
                reader.bytes() == old(reader).bytes(),
                input == old(reader).remaining(),
                start == old(self)@,
                used <= input.len(),
                reader.remaining() == input.skip(used as int),
                self@.messages_from::<P::Kind>(
                    user,
                    self.registered(),
                    (count - i) as nat,
                    reader.remaining(),
                    4 + used,
                ) == start.messages_from::<P::Kind>(
                    user,
                    self.registered(),
                    count as nat,
                    input,
                    4,
                ),
            decreases count - i,
        {
            let ghost before = reader.remaining();
            let ghost now = self@;
            let kind = match reader.read_u16() {
                Ok(kind) => kind,
                Err(e) => {
                    assert(now.messages_from::<P::Kind>(
                        user,
                        self.registered(),
                        (count - i) as nat,
                        before,
                        4 + used,
                    ) == (Taken { state: now, result: Err(e) }));
                    return Err(e);
                },
            };
            let message = match self.manifest.create_replica(kind, reader, 0) {
                Ok(message) => message,
                Err(e) => {
                    assert(now.messages_from::<P::Kind>(
                        user,
                        self.registered(),
                        (count - i) as nat,
                        before,
                        4 + used,
                    ) == (Taken { state: now, result: Err(e) }));
                    return Err(e);
                },
            };
            proof {
                let parsed = spec_create_replica::<P::Kind>(
                    self.registered(),
                    kind,
                    before.skip(2),
                )->Ok_0;
                lemma_read_full_bounds::<P::Kind>(kind, before.skip(2));
                assert(before.skip(2).skip(parsed.consumed as int) =~= before.skip(
                    2 + parsed.consumed as int,
                ));
                assert(input.skip(used as int).skip(2 + parsed.consumed as int) =~= input.skip(
                    used as int + 2 + parsed.consumed as int,
                ));
                used = used + 2 + parsed.consumed;
            }
            if matches!(self.connections.phase(user), ConnectionPhase::Authorizing) {
                self.push_event(ServerEvent::Authorization(user, message));
            } else {
                self.push_event(ServerEvent::Message(user, message));
            }
            i = i + 1;
        }
        Ok(())
    }

    /// Takes in one section of a data packet of `user`.
    fn receive_section(&mut self, user: UserKey, reader: &mut PacketReader) -> (r: Result<
        (),
        ProtocolError,
    >)
        requires
            old(self).wf(),
            old(reader).wf(),
        ensures
            final(self).wf(),
            final(self).registered() == old(self).registered(),
            final(reader).wf(),
            final(reader).bytes() == old(reader).bytes(),
            ({
                let taken = old(self)@.section::<P::Kind>(
                    user,
                    old(self).registered(),
                    old(reader).remaining(),
                );
                &&& final(self)@ == taken.state
                &&& match r {
                    Ok(_) => taken.result matches Ok(used) && 3 <= used <= old(
                        reader,
                    ).remaining().len() && final(reader).remaining() == old(
                        reader,
                    ).remaining().skip(used as int),
                    Err(e) => taken.result == Err::<nat, ProtocolError>(e),
                }
            }),
    {
        let ghost input = reader.remaining();
        let code = reader.read_u8()?;
        let tick = reader.read_u16()?;
        let ghost body = reader.remaining();
        assert(body =~= input.skip(3));
        match ManagerType::from(code) {
            ManagerType::Message => {
                let count = reader.read_u8()?;
                let ghost listed = reader.remaining();
                self.receive_messages(user, count, reader)?;
                proof {
                    let taken = old(self)@.messages_from::<P::Kind>(
                        user,
                        self.registered(),
                        count as nat,
                        listed,
                        4,
                    );
                    let used = taken.result->Ok_0;
                    assert(listed.skip(used - 4) =~= input.skip(used as int));
                }
                Ok(())
            },
            ManagerType::Command => {
                let i = self.find_state(user);
                if i >= self.users.len() {
                    return Err(ProtocolError::UnknownManager);
                }
                let ghost start = self@;
                assert(start.users[i as int] == self.users@[i as int]@);
                let server_tick = self.tick;
                let outcome = self.users[i].commands.process_incoming_messages(
                    Some(server_tick),
                    tick,
                    reader,
                    &self.manifest,
                );
                proof {
                    let received =
                        start.users[i as int].commands.process_incoming_messages::<P::Kind>(
                        self.registered(),
                        Some(server_tick),
                        tick,
                        body,
                    );
                    assert(self@.users =~= start.with_commands(user, received.state).users);
                    assert(self@.events == start.events);
                    if outcome is Ok {
                        let used = received.result->Ok_0;
                        reader.lemma_remaining();
                        crate::server::entity_message_receiver::lemma_receive_bounds::<P::Kind>(
                            start.users[i as int].commands,
                            self.registered(),
                            Some(server_tick),
                            tick,
                            body,
                        );
                        assert(body.skip(used as int) =~= input.skip(used as int + 3));
                    }
                }
                outcome
            },
            _ => Err(ProtocolError::UnknownManager),
        }
    }

    /// Takes in a data packet with the payload `payload` that has come from
    /// `address` at `now`: the sections of the packet, one after another. A
    /// packet from an address without a connection is passed over. A packet
    /// that is at fault ends the connection that it came on; the host
    /// program is told, and the fault is returned.
    pub fn receive_data(&mut self, address: &Address, now: u64, payload: &[u8]) -> (r: Result<
        (),
        ProtocolError,
    >)
        requires
            old(self).wf(),
        ensures
            final(self).wf(),
            final(self).registered() == old(self).registered(),
            ({
                let taken = old(self)@.receive_data::<P::Kind>(
                    *address,
                    now,
                    old(self).registered(),
                    payload@,
                );
                &&& final(self)@ == taken.state
                &&& match r {
                    Ok(_) => taken.result is Ok,
                    Err(e) => taken.result == Err::<nat, ProtocolError>(e),
                }
            }),
    {
        let user = match self.heard(address, now) {
            Some(user) => user,
            None => {
                return Ok(());
            },
        };
        let ghost heard = self@;
        let mut reader = PacketReader::new(payload);
        let ghost mut used: nat = 0;
        while reader.has_more()
            invariant
                self.wf(),
                self.registered() == old(self).registered(),
                reader.wf(),
                old(self)@.connections.knows_address(*address),
                user == old(self)@.connections.records[
                    crate::server::connection_table::spec_find_address(
                        old(self)@.connections.records,
                        *address,
                    )].user,
                heard == (ServerView {
                    connections: old(self)@.connections.heard(*address, now),
                    ..old(self)@
                }),
                self@.sections::<P::Kind>(user, self.registered(), reader.remaining(), used)
                    == heard.sections::<P::Kind>(user, self.registered(), payload@, 0),
            decreases reader.remaining().len(),
        {
            let ghost before = reader.remaining();
            let ghost now_state = self@;
            match self.receive_section(user, &mut reader) {
                Ok(_) => {
                    proof {
                        let taken = now_state.section::<P::Kind>(user, self.registered(), before);
                        used = used + taken.result->Ok_0;
                    }
                },
                Err(e) => {
                    proof {
                        let taken = now_state.sections::<P::Kind>(
                            user,
                            self.registered(),
                            before,
                            used,
                        );
                        assert(taken.result == Err::<nat, ProtocolError>(e));
                        assert(taken.state == self@);
                    }
                    self.user_force_disconnect(user);
                    return Err(e);
                },
            }
        }
        Ok(())
    }
}

} // verus!

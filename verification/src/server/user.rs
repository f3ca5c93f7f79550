//! A remote host, as the server knows it.

use vstd::prelude::*;
use crate::manifest::{KindBuilder, ReplicaBuilder};
use crate::protocol_type::ProtocolType;
use crate::server::host::Server;
use crate::server::keys::{RoomKey, UserKey};
use crate::server::server_view::ServerView;

verus! {

/// Where a remote host is reached: an address of the internet, version 4
/// addresses in their mapped form, and a port.
#[derive(Clone, Copy, Debug, PartialEq, Eq, Structural)]
pub struct Address {
    pub ip: u128,
    pub port: u16,
}

/// A remote host that has shaken hands with the server.
#[derive(Clone, Copy, Debug, PartialEq, Eq, Structural)]
pub struct User {
    /// Where the host is reached.
    pub address: Address,
    /// The number that the host chose for this connection; a host that
    /// connects again chooses another.
    pub timestamp: u64,
}

impl User {
    /// A user that is reached at `address` and has chosen `timestamp`.
    pub fn new(address: Address, timestamp: u64) -> (user: User)
        ensures
            user == (User { address, timestamp }),
    {
        User { address, timestamp }
    }
}

/// A user of a server, to look at.
pub struct UserRef<'s, P: ProtocolType, B: ReplicaBuilder<P> = KindBuilder<P>> {
    server: &'s Server<P, B>,
    key: UserKey,
}

impl<'s, P: ProtocolType, B: ReplicaBuilder<P>> UserRef<'s, P, B> {
    /// The server of the user.
    pub closed spec fn server(&self) -> Server<P, B> {
        *self.server
    }

    /// The key of the user.
    pub closed spec fn spec_key(&self) -> UserKey {
        self.key
    }

    /// The user `key` of `server`.
    pub fn new(server: &'s Server<P, B>, key: &UserKey) -> (user: Self)
        ensures
            user.server() == *server,
            user.spec_key() == *key,
    {
        UserRef { server, key: *key }
    }

    /// The key of the user.
    pub fn key(&self) -> (key: UserKey)
        ensures
            key == self.spec_key(),
    {
        self.key
    }

    /// Where the user is reached. The user must have a connection.
    pub fn address(&self) -> (address: Address)
        requires
            self.server()@.connections.knows_user(self.spec_key()),
        ensures
            address == self.server()@.connections.record_of(self.spec_key()).address,
    {
        match self.server.get_user(self.key) {
            Some(user) => user.address,
            None => Address { ip: 0, port: 0 },
        }
    }
}

/// A user of a server, to act on.
pub struct UserMut<'s, P: ProtocolType, B: ReplicaBuilder<P> = KindBuilder<P>> {
    server: &'s mut Server<P, B>,
    key: UserKey,
}

impl<'s, P: ProtocolType, B: ReplicaBuilder<P>> UserMut<'s, P, B> {
    /// The server of the user.
    pub closed spec fn server(&self) -> Server<P, B> {
        *self.server
    }

    /// The key of the user.
    pub closed spec fn spec_key(&self) -> UserKey {
        self.key
    }

    /// The user `key` of `server`.
    pub fn new(server: &'s mut Server<P, B>, key: &UserKey) -> (user: Self)
        ensures
            user.server() == *old(server),
            user.spec_key() == *key,
    {
        UserMut { server, key: *key }
    }

    /// The key of the user.
    pub fn key(&self) -> (key: UserKey)
        ensures
            key == self.spec_key(),
    {
        self.key
    }

    /// Where the user is reached. The user must have a connection.
    pub fn address(&self) -> (address: Address)
        requires
            self.server()@.connections.knows_user(self.spec_key()),
        ensures
            address == self.server()@.connections.record_of(self.spec_key()).address,
    {
        match self.server.get_user(self.key) {
            Some(user) => user.address,
            None => Address { ip: 0, port: 0 },
        }
    }

    /// Ends the connection of the user.
    pub fn disconnect(&mut self)
        requires
            old(self).server().wf(),
        ensures
            final(self).server().wf(),
            final(self).spec_key() == old(self).spec_key(),
            final(self).server()@ == old(self).server()@.disconnect(old(self).spec_key()),
    {
        self.server.user_force_disconnect(self.key);
    }

    /// Puts the user into the room `room_key`. Returns the user, to go on
    /// with.
    pub fn enter_room(&mut self, room_key: &RoomKey) -> (again: &mut Self)
        requires
            old(self).server().wf(),
        ensures
            again.server().wf(),
            again.spec_key() == old(self).spec_key(),
            again.server()@ == (ServerView {
                rooms: old(self).server()@.rooms.room_add_user(*room_key, old(self).spec_key()),
                ..old(self).server()@
            }),
            *final(self) == *final(again),
    {
        self.server.room_add_user(*room_key, self.key);
        self
    }

    /// Takes the user out of the room `room_key`. Returns the user, to go
    /// on with.
    pub fn leave_room(&mut self, room_key: &RoomKey) -> (again: &mut Self)
        requires
            old(self).server().wf(),
        ensures
            again.server().wf(),
            again.spec_key() == old(self).spec_key(),
            again.server()@ == (ServerView {
                rooms: old(self).server()@.rooms.room_remove_user(
                    *room_key,
                    old(self).spec_key(),
                ),
                ..old(self).server()@
            }),
            *final(self) == *final(again),
    {
        self.server.room_remove_user(*room_key, self.key);
        self
    }
}

} // verus!

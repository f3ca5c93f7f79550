//! What the server does with a packet as it comes off the wire: which part
//! of the server takes it, by its type, and what is to be sent back.

use vstd::prelude::*;
use vstd::slice::slice_subrange;
use crate::packet_type::{
    PacketType, bare_packet, numbered_packet, read_number, read_timestamp, spec_bare_packet,
    spec_numbered_packet, spec_packet_number, spec_packet_timestamp, spec_packet_type,
};
use crate::manifest::ReplicaBuilder;
use crate::protocol_type::{ProtocolKindType, ProtocolType};
use crate::server::connection_table::spec_find_address;
use crate::server::host::Server;
use crate::server::keys::UserKey;
use crate::server::replication_view::ReplicationView;
use crate::server::server_view::ServerView;
use crate::server::user::Address;

verus! {

/// What is to be sent back to where a packet came from.
#[derive(Clone, Copy, Debug, PartialEq, Eq, Structural)]
pub enum Reply {
    /// Nothing.
    Nothing,
    /// A packet of type `ServerHandshake`: the handshake has been heard.
    Granted,
    /// A packet of type `Ack` with the number of the data packet that has
    /// come.
    Ack(u16),
    /// Nothing is sent; the transport is told that the data packet with
    /// this number to this user has arrived.
    Confirmed(UserKey, u16),
}

/// The packet that carries `reply`, if there is anything to send.
pub open spec fn spec_reply_packet(reply: Reply) -> Option<Seq<u8>> {
    match reply {
        Reply::Nothing => None,
        Reply::Granted => Some(spec_bare_packet(PacketType::ServerHandshake)),
        Reply::Ack(packet_index) => Some(spec_numbered_packet(PacketType::Ack, packet_index)),
        Reply::Confirmed(_, _) => None,
    }
}

impl Reply {
    /// The packet that carries this reply, if there is anything to send.
    pub fn packet(&self) -> (packet: Option<Vec<u8>>)
        ensures
            match packet {
                Some(bytes) => spec_reply_packet(*self) == Some(bytes@),
                None => spec_reply_packet(*self) is None,
            },
    {
        match self {
            Reply::Nothing => None,
            Reply::Granted => Some(bare_packet(PacketType::ServerHandshake)),
            Reply::Ack(packet_index) => Some(numbered_packet(PacketType::Ack, *packet_index)),
            Reply::Confirmed(_, _) => None,
        }
    }
}

/// A state of the server, and what is to be sent back.
pub struct Answered {
    pub state: ServerView,
    pub reply: Reply,
}

impl ServerView {
    /// The state after a packet has been heard from `address` at `now`.
    pub open spec fn hear(self, address: Address, now: u64) -> ServerView {
        ServerView { connections: self.connections.heard(address, now), ..self }
    }

    /// The user that is connected from `address`, if one is.
    pub open spec fn user_at(self, address: Address) -> Option<UserKey> {
        if self.connections.knows_address(address) {
            Some(
                self.connections.records[spec_find_address(self.connections.records, address)].user,
            )
        } else {
            None
        }
    }

    /// The state after the transport has told what became of the packet
    /// `packet_index` that was sent to `user`: what the packet carried is
    /// settled as confirmed or as lost.
    pub open spec fn settle(self, user: UserKey, packet_index: u16, acked: bool) -> ServerView {
        self.one_replication(
            user,
            |replication: ReplicationView| replication.settle(packet_index, acked),
        )
    }

    /// The state after `packet` has come from `address` at `now`, and what
    /// is to be sent back.
    ///
    /// A handshake that holds a timestamp is taken in, and answered unless
    /// the server has run out of user keys. A data packet that holds its
    /// number has its sections taken in, and its number is confirmed. A
    /// heartbeat is noted. A confirmation is noted, and settles the packet
    /// that it names as arrived if a user is connected from the address;
    /// the transport is then told so.
    /// Anything else, and a packet too short for what its type carries,
    /// changes nothing.
    pub open spec fn receive_packet<K: ProtocolKindType>(
        self,
        address: Address,
        now: u64,
        registered: Set<u16>,
        packet: Seq<u8>,
    ) -> Answered {
        match spec_packet_type(packet) {
            PacketType::ClientHandshake => match spec_packet_timestamp(packet) {
                Some(timestamp) => Answered {
                    state: self.receive_handshake(address, timestamp, now),
                    reply: if self.connections.handshake(address, timestamp, now).outcome.user
                        is Some {
                        Reply::Granted
                    } else {
                        Reply::Nothing
                    },
                },
                None => Answered { state: self, reply: Reply::Nothing },
            },
            PacketType::Data => match spec_packet_number(packet) {
                Some(packet_index) => Answered {
                    state: self.receive_data::<K>(address, now, registered, packet.skip(3)).state,
                    reply: Reply::Ack(packet_index),
                },
                None => Answered { state: self, reply: Reply::Nothing },
            },
            PacketType::Heartbeat => Answered {
                state: self.hear(address, now),
                reply: Reply::Nothing,
            },
            PacketType::Ack => match (spec_packet_number(packet), self.user_at(address)) {
                (Some(packet_index), Some(user)) => Answered {
                    state: self.hear(address, now).settle(user, packet_index, true),
                    reply: Reply::Confirmed(user, packet_index),
                },
                _ => Answered { state: self.hear(address, now), reply: Reply::Nothing },
            },
            _ => Answered { state: self, reply: Reply::Nothing },
        }
    }
}

impl<P: ProtocolType, B: ReplicaBuilder<P>> Server<P, B> {
    /// Takes in a packet that has come from `address` at `now`, whatever it
    /// is, and says what is to be sent back.
    pub fn receive_packet(&mut self, address: Address, now: u64, packet: &[u8]) -> (reply: Reply)
        requires
            old(self).wf(),
        ensures
            final(self).wf(),
            final(self).registered() == old(self).registered(),
            final(self)@ == old(self)@.receive_packet::<P::Kind>(
                address,
                now,
                old(self).registered(),
                packet@,
            ).state,
            reply == old(self)@.receive_packet::<P::Kind>(
                address,
                now,
                old(self).registered(),
                packet@,
            ).reply,
    {
        match PacketType::get_from_packet(packet) {
            PacketType::ClientHandshake => match read_timestamp(packet) {
                Some(timestamp) => {
                    if self.receive_handshake(address, timestamp, now) {
                        Reply::Granted
                    } else {
                        Reply::Nothing
                    }
                },
                None => Reply::Nothing,
            },
            PacketType::Data => match read_number(packet) {
                Some(packet_index) => {
                    let payload = slice_subrange(packet, 3, packet.len());
                    assert(payload@ =~= packet@.skip(3));
                    // a packet that is at fault ends the connection; the event says so
                    let _ = self.receive_data(&address, now, payload);
                    Reply::Ack(packet_index)
                },
                None => Reply::Nothing,
            },
            PacketType::Heartbeat => {
                let _ = self.heard(&address, now);
                Reply::Nothing
            },
            PacketType::Ack => {
                let number = read_number(packet);
                let user = self.heard(&address, now);
                match (number, user) {
                    (Some(packet_index), Some(user)) => {
                        self.notify_packet(user, packet_index, true);
                        Reply::Confirmed(user, packet_index)
                    },
                    _ => Reply::Nothing,
                }
            },
            _ => Reply::Nothing,
        }
    }
}

} // verus!

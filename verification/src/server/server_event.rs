//! What the server tells its host program.

use vstd::prelude::*;
use crate::protocol_type::ProtocolType;
use crate::server::keys::{EntityKey, UserKey};
use crate::server::user::User;
use crate::wire::ReplicaView;

verus! {

/// Something that has happened on the server.
pub enum ServerEvent<P: ProtocolType> {
    /// A user has become connected.
    Connection(UserKey),
    /// The connection of a user has ended; what was known of the user.
    Disconnection(UserKey, User),
    /// A user that waits to be authorized has sent this to be judged by.
    Authorization(UserKey, P),
    /// A user has sent a message.
    Message(UserKey, P),
    /// A user has sent a command for an entity that it drives, for the tick
    /// that the server has reached.
    Command(UserKey, EntityKey, P),
    /// A tick has passed.
    Tick,
}

/// A `ServerEvent` with the replica in it taken by its view.
pub enum ServerEventView {
    Connection(UserKey),
    Disconnection(UserKey, User),
    Authorization(UserKey, ReplicaView),
    Message(UserKey, ReplicaView),
    Command(UserKey, EntityKey, ReplicaView),
    Tick,
}

impl<P: ProtocolType> ServerEvent<P> {
    /// What this value is to the contracts.
    pub open spec fn view(&self) -> ServerEventView {
        match self {
            ServerEvent::Connection(user) => ServerEventView::Connection(*user),
            ServerEvent::Disconnection(user, info) => ServerEventView::Disconnection(*user, *info),
            ServerEvent::Authorization(user, replica) => ServerEventView::Authorization(
                *user,
                replica@,
            ),
            ServerEvent::Message(user, replica) => ServerEventView::Message(*user, replica@),
            ServerEvent::Command(user, entity, replica) => ServerEventView::Command(
                *user,
                *entity,
                replica@,
            ),
            ServerEvent::Tick => ServerEventView::Tick,
        }
    }
}

/// The views of a queue of events.
pub open spec fn spec_events<P: ProtocolType>(events: Seq<ServerEvent<P>>) -> Seq<ServerEventView> {
    events.map_values(|event: ServerEvent<P>| event@)
}

} // verus!

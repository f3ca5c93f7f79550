//! The keys by which the server names things.

use vstd::prelude::*;

verus! {

/// A type that is used as a key.
pub trait KeyType {

}

/// The key of a user: a remote host that has shaken hands with the server.
pub type UserKey = u64;

/// The key of an entity of the server's world.
pub type EntityKey = u64;

/// The key of a replica that is a component, unique among all components
/// of the server.
pub type ReplicaKey = u64;

/// What a component is found by: the entity that owns it, and its kind.
#[derive(Clone, Copy, Debug, PartialEq, Eq, Structural)]
pub struct ComponentKey {
    pub entity: EntityKey,
    pub kind: u16,
}

impl ComponentKey {
    /// The key of the component of `key` that is of the kind numbered `kind`.
    pub fn new(key: &EntityKey, kind: &u16) -> (component: Self)
        ensures
            component == (ComponentKey { entity: *key, kind: *kind }),
    {
        ComponentKey { entity: *key, kind: *kind }
    }
}

/// The key of a room.
pub type RoomKey = u64;

impl KeyType for u64 {

}

/// The key of something that a user drives.
#[derive(Clone, Copy, Debug, PartialEq, Eq, Structural)]
pub enum GlobalPawnKey {
    /// A single replica.
    Object(ReplicaKey),
    /// An entity.
    Entity(EntityKey),
}

} // verus!

//! The codes that open the sections of a data packet.

use vstd::prelude::*;

verus! {

/// Every section of a data packet belongs to one manager; this says which.
#[derive(Clone, Copy, Debug, PartialEq, Eq, Structural)]
pub enum ManagerType {
    /// Code 1: messages.
    Message,
    /// Code 2: entities and their components.
    Entity,
    /// Code 3: commands, from a client to the server.
    Command,
    /// Any other code.
    Unknown,
}

/// The manager that a code stands for.
pub open spec fn spec_manager_type(code: u8) -> ManagerType {
    if code == 1 {
        ManagerType::Message
    } else if code == 2 {
        ManagerType::Entity
    } else if code == 3 {
        ManagerType::Command
    } else {
        ManagerType::Unknown
    }
}

/// The code of a manager; 255 for `Unknown`.
pub open spec fn spec_manager_code(manager: ManagerType) -> u8 {
    match manager {
        ManagerType::Message => 1,
        ManagerType::Entity => 2,
        ManagerType::Command => 3,
        ManagerType::Unknown => 255,
    }
}

/// Every manager is found again under its code.
pub proof fn lemma_manager_code(manager: ManagerType)
    ensures
        spec_manager_type(spec_manager_code(manager)) == manager,
{
}

impl ManagerType {
    /// The code of this manager.
    pub fn to_u8(&self) -> (code: u8)
        ensures
            code == spec_manager_code(*self),
    {
        match self {
            ManagerType::Message => 1,
            ManagerType::Entity => 2,
            ManagerType::Command => 3,
            ManagerType::Unknown => 255,
        }
    }
}

impl From<u8> for ManagerType {
    fn from(orig: u8) -> (manager: Self) {
        if orig == 1 {
            ManagerType::Message
        } else if orig == 2 {
            ManagerType::Entity
        } else if orig == 3 {
            ManagerType::Command
        } else {
            ManagerType::Unknown
        }
    }
}

impl vstd::std_specs::convert::FromSpecImpl<u8> for ManagerType {
    open spec fn obeys_from_spec() -> bool {
        true
    }

    open spec fn from_spec(orig: u8) -> Self {
        spec_manager_type(orig)
    }
}

} // verus!

//! The codes that open the records of an entity section.

use vstd::prelude::*;

verus! {

/// What a record of an entity section asks the client to do.
#[derive(Clone, Copy, Debug, PartialEq, Eq, Structural)]
pub enum ReplicaActionType {
    /// Code 1: an entity comes into scope, with its components.
    CreateEntity,
    /// Code 2: an entity leaves scope.
    DeleteEntity,
    /// Code 3: an entity gets a component.
    AddComponent,
    /// Code 4: an entity loses a component.
    DeleteComponent,
    /// Code 5: some properties of a component have new values.
    UpdateComponent,
    /// Code 6: the client may drive an entity.
    AssignPawnEntity,
    /// Code 7: the client may no longer drive an entity.
    UnassignPawnEntity,
    /// Any other code.
    Unknown,
}

/// The action that a code stands for.
pub open spec fn spec_action_type(code: u8) -> ReplicaActionType {
    if code == 1 {
        ReplicaActionType::CreateEntity
    } else if code == 2 {
        ReplicaActionType::DeleteEntity
    } else if code == 3 {
        ReplicaActionType::AddComponent
    } else if code == 4 {
        ReplicaActionType::DeleteComponent
    } else if code == 5 {
        ReplicaActionType::UpdateComponent
    } else if code == 6 {
        ReplicaActionType::AssignPawnEntity
    } else if code == 7 {
        ReplicaActionType::UnassignPawnEntity
    } else {
        ReplicaActionType::Unknown
    }
}

/// The code of an action; 0 for `Unknown`, which is never written.
pub open spec fn spec_action_code(action: ReplicaActionType) -> u8 {
    match action {
        ReplicaActionType::CreateEntity => 1,
        ReplicaActionType::DeleteEntity => 2,
        ReplicaActionType::AddComponent => 3,
        ReplicaActionType::DeleteComponent => 4,
        ReplicaActionType::UpdateComponent => 5,
        ReplicaActionType::AssignPawnEntity => 6,
        ReplicaActionType::UnassignPawnEntity => 7,
        ReplicaActionType::Unknown => 0,
    }
}

/// Every action but `Unknown` is found again under its code.
pub proof fn lemma_action_code(action: ReplicaActionType)
    requires
        action != ReplicaActionType::Unknown,
    ensures
        spec_action_type(spec_action_code(action)) == action,
{
}

impl ReplicaActionType {
    /// The code of this action.
    pub fn to_u8(&self) -> (code: u8)
        ensures
            code == spec_action_code(*self),
    {
        match self {
            ReplicaActionType::CreateEntity => 1,
            ReplicaActionType::DeleteEntity => 2,
            ReplicaActionType::AddComponent => 3,
            ReplicaActionType::DeleteComponent => 4,
            ReplicaActionType::UpdateComponent => 5,
            ReplicaActionType::AssignPawnEntity => 6,
            ReplicaActionType::UnassignPawnEntity => 7,
            ReplicaActionType::Unknown => 0,
        }
    }

    /// The action that `code` stands for.
    pub fn from_u8(code: u8) -> (action: Self)
        ensures
            action == spec_action_type(code),
    {
        if code == 1 {
            ReplicaActionType::CreateEntity
        } else if code == 2 {
            ReplicaActionType::DeleteEntity
        } else if code == 3 {
            ReplicaActionType::AddComponent
        } else if code == 4 {
            ReplicaActionType::DeleteComponent
        } else if code == 5 {
            ReplicaActionType::UpdateComponent
        } else if code == 6 {
            ReplicaActionType::AssignPawnEntity
        } else if code == 7 {
            ReplicaActionType::UnassignPawnEntity
        } else {
            ReplicaActionType::Unknown
        }
    }
}

} // verus!

//! What the client tells the host program of the changes that the server
//! sent.

use vstd::prelude::*;
use crate::protocol_type::ProtocolType;
use crate::wire::ReplicaView;

verus! {

/// A change to the client's replicas, as the host program sees it.
pub enum ReplicaAction<P: ProtocolType> {
    /// An entity came into being, with these components.
    CreateEntity(u16, Vec<P>),
    /// An entity is gone.
    DeleteEntity(u16),
    /// The client may now drive this entity with commands.
    AssignPawnEntity(u16),
    /// The client may no longer drive this entity.
    UnassignPawnEntity(u16),
    /// The predicted copy of this entity was set back to what the server
    /// says.
    ResetPawnEntity(u16),
    /// An entity got a component.
    AddComponent(u16, P),
    /// A component of an entity has new values.
    UpdateComponent(u16, P),
    /// An entity lost a component.
    RemoveComponent(u16, P),
}

/// A `ReplicaAction` with the replicas in it taken by their views.
pub enum ActionView {
    CreateEntity(u16, Seq<ReplicaView>),
    DeleteEntity(u16),
    AssignPawnEntity(u16),
    UnassignPawnEntity(u16),
    ResetPawnEntity(u16),
    AddComponent(u16, ReplicaView),
    UpdateComponent(u16, ReplicaView),
    RemoveComponent(u16, ReplicaView),
}

/// The views of a list of replicas.
pub open spec fn spec_views<P: ProtocolType>(replicas: Seq<P>) -> Seq<ReplicaView> {
    replicas.map_values(|replica: P| replica@)
}

impl<P: ProtocolType> ReplicaAction<P> {
    /// What this value is to the contracts.
    pub open spec fn view(&self) -> ActionView {
        match self {
            ReplicaAction::CreateEntity(entity, components) => ActionView::CreateEntity(
                *entity,
                spec_views(components@),
            ),
            ReplicaAction::DeleteEntity(entity) => ActionView::DeleteEntity(*entity),
            ReplicaAction::AssignPawnEntity(entity) => ActionView::AssignPawnEntity(*entity),
            ReplicaAction::UnassignPawnEntity(entity) => ActionView::UnassignPawnEntity(*entity),
            ReplicaAction::ResetPawnEntity(entity) => ActionView::ResetPawnEntity(*entity),
            ReplicaAction::AddComponent(entity, replica) => ActionView::AddComponent(
                *entity,
                replica@,
            ),
            ReplicaAction::UpdateComponent(entity, replica) => ActionView::UpdateComponent(
                *entity,
                replica@,
            ),
            ReplicaAction::RemoveComponent(entity, replica) => ActionView::RemoveComponent(
                *entity,
                replica@,
            ),
        }
    }
}

/// The views of a queue of actions.
pub open spec fn spec_action_views<P: ProtocolType>(actions: Seq<ReplicaAction<P>>) -> Seq<
    ActionView,
> {
    actions.map_values(|action: ReplicaAction<P>| action@)
}

} // verus!

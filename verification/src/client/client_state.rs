//! What a section of entity records does to the client as a whole: to its
//! replicas and to its commands.

use vstd::prelude::*;
use crate::client::client_view::{
    ClientView, lemma_assign_pawn_wf, lemma_attach_component_wf, lemma_create_entity_wf,
    lemma_delete_component_wf, lemma_delete_entity_wf, lemma_unassign_pawn_wf,
    lemma_update_component_wf,
};
use crate::client::command_receiver::CommandReceiverView;
use crate::client::wire_action::{WireAction, spec_read_action};
use crate::error::ProtocolError;
use crate::protocol_type::ProtocolKindType;

verus! {

/// The replicas and the commands of a client.
pub struct ClientState {
    pub client: ClientView,
    pub commands: CommandReceiverView,
}

/// A state, and either the number of bytes that were read on the way to it
/// or the fault at which reading stopped.
pub struct Processed {
    pub state: ClientState,
    pub result: Result<nat, ProtocolError>,
}

impl ClientState {
    /// The state after one record of a packet of tick `tick` has been
    /// applied.
    pub open spec fn apply(self, tick: u16, action: WireAction) -> ClientState {
        match action {
            WireAction::CreateEntity(entity, components) => ClientState {
                client: self.client.create_entity(entity, components),
                ..self
            },
            WireAction::DeleteEntity(entity) => ClientState {
                client: self.client.delete_entity(entity),
                commands: if self.client.entities.contains_key(entity)
                    && self.client.pawn_entities.contains(entity) {
                    self.commands.pawn_cleanup(entity)
                } else {
                    self.commands
                },
            },
            WireAction::AddComponent(entity, component) => ClientState {
                client: self.client.add_component(entity, component),
                ..self
            },
            WireAction::DeleteComponent(key) => ClientState {
                client: self.client.delete_component(key),
                ..self
            },
            WireAction::UpdateComponent(key, replica) => ClientState {
                client: self.client.update_component(key, replica),
                commands: if self.client.can_update(key, replica)
                    && self.client.pawn_entities.contains(self.client.component_entity[key]) {
                    self.commands.replay_commands(
                        tick,
                        self.client.component_entity[key],
                    ).remove_history_until(tick, self.client.component_entity[key])
                } else {
                    self.commands
                },
            },
            WireAction::AssignPawnEntity(entity) => ClientState {
                client: self.client.assign_pawn(entity),
                commands: if self.client.entities.contains_key(entity) {
                    self.commands.pawn_init(entity)
                } else {
                    self.commands
                },
            },
            WireAction::UnassignPawnEntity(entity) => ClientState {
                client: self.client.unassign_pawn(entity),
                commands: if self.client.pawn_entities.contains(entity) {
                    self.commands.pawn_cleanup(entity)
                } else {
                    self.commands
                },
            },
        }
    }
}

/// The state after `count` more records have been read from the head of
/// `input` and applied in the order of the wire, `used` bytes having been
/// read before. Reading stops at the first record that is at fault; the
/// records before it stay applied.
pub open spec fn spec_process_actions<K: ProtocolKindType>(
    state: ClientState,
    registered: Set<u16>,
    tick: u16,
    count: nat,
    input: Seq<u8>,
    used: nat,
) -> Processed
    decreases count,
{
    if count == 0 {
        Processed { state, result: Ok(used) }
    } else {
        match spec_read_action::<K>(state.client.replicas, registered, input) {
            Err(e) => Processed { state, result: Err(e) },
            Ok(parsed) => spec_process_actions::<K>(
                state.apply(tick, parsed.value),
                registered,
                tick,
                (count - 1) as nat,
                input.skip(parsed.consumed as int),
                used + parsed.consumed,
            ),
        }
    }
}

/// The state after a section of entity records has been processed: one byte
/// with the number of records, then the records.
pub open spec fn spec_process_data<K: ProtocolKindType>(
    state: ClientState,
    registered: Set<u16>,
    tick: u16,
    input: Seq<u8>,
) -> Processed {
    if input.len() < 1 {
        Processed { state, result: Err(ProtocolError::Truncated) }
    } else {
        spec_process_actions::<K>(state, registered, tick, input[0] as nat, input.skip(1), 1)
    }
}

/// Whatever record the server sends, the client's stores agree afterwards
/// as they did before: every component is mapped to an entity that exists,
/// and every component of a pawn has a predicted copy.
pub proof fn lemma_apply_wf(state: ClientState, tick: u16, action: WireAction)
    requires
        state.client.wf(),
    ensures
        state.apply(tick, action).client.wf(),
{
    match action {
        WireAction::CreateEntity(entity, components) => {
            lemma_create_entity_wf(state.client, entity, components);
        },
        WireAction::DeleteEntity(entity) => {
            lemma_delete_entity_wf(state.client, entity);
        },
        WireAction::AddComponent(entity, component) => {
            lemma_attach_component_wf(state.client, entity, component);
            let attached = state.client.attach_component(entity, component);
            let after = state.client.add_component(entity, component);
            assert(after.entities == attached.entities);
            assert(after.replicas == attached.replicas);
            assert(after.component_entity == attached.component_entity);
            assert(after.pawns == attached.pawns);
            assert(after.pawn_entities == attached.pawn_entities);
        },
        WireAction::DeleteComponent(key) => {
            lemma_delete_component_wf(state.client, key);
        },
        WireAction::UpdateComponent(key, replica) => {
            lemma_update_component_wf(state.client, key, replica);
        },
        WireAction::AssignPawnEntity(entity) => {
            lemma_assign_pawn_wf(state.client, entity);
        },
        WireAction::UnassignPawnEntity(entity) => {
            lemma_unassign_pawn_wf(state.client, entity);
        },
    }
}

/// Whatever a section holds, the client's stores agree after it has been
/// processed, also where processing stopped at a fault.
pub proof fn lemma_process_actions_wf<K: ProtocolKindType>(
    state: ClientState,
    registered: Set<u16>,
    tick: u16,
    count: nat,
    input: Seq<u8>,
    used: nat,
)
    requires
        state.client.wf(),
    ensures
        spec_process_actions::<K>(state, registered, tick, count, input, used).state.client.wf(),
    decreases count,
{
    if count > 0 {
        if let Ok(parsed) = spec_read_action::<K>(state.client.replicas, registered, input) {
            lemma_apply_wf(state, tick, parsed.value);
            lemma_process_actions_wf::<K>(
                state.apply(tick, parsed.value),
                registered,
                tick,
                (count - 1) as nat,
                input.skip(parsed.consumed as int),
                used + parsed.consumed,
            );
        }
    }
}

/// The records that were processed took no more bytes than there were.
pub proof fn lemma_process_actions_bounds<K: ProtocolKindType>(
    state: ClientState,
    registered: Set<u16>,
    tick: u16,
    count: nat,
    input: Seq<u8>,
    used: nat,
)
    ensures
        spec_process_actions::<K>(state, registered, tick, count, input, used).result matches Ok(
            total,
        ) ==> used <= total <= used + input.len(),
    decreases count,
{
    if count > 0 {
        if let Ok(parsed) = spec_read_action::<K>(state.client.replicas, registered, input) {
            crate::client::wire_action::lemma_action_bounds::<K>(
                state.client.replicas,
                registered,
                input,
            );
            lemma_process_actions_bounds::<K>(
                state.apply(tick, parsed.value),
                registered,
                tick,
                (count - 1) as nat,
                input.skip(parsed.consumed as int),
                used + parsed.consumed,
            );
        }
    }
}

/// A section that was processed took at least one byte and no more than
/// there were.
pub proof fn lemma_process_data_bounds<K: ProtocolKindType>(
    state: ClientState,
    registered: Set<u16>,
    tick: u16,
    input: Seq<u8>,
)
    ensures
        spec_process_data::<K>(state, registered, tick, input).result matches Ok(total) ==> 1
            <= total <= input.len(),
{
    if input.len() >= 1 {
        lemma_process_actions_bounds::<K>(
            state,
            registered,
            tick,
            input[0] as nat,
            input.skip(1),
            1,
        );
    }
}

} // verus!

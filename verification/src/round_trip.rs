//! What the server writes, the client ends up with.

use vstd::prelude::*;
use crate::action_writer::{
    lemma_add_round_trip, lemma_create_round_trip, lemma_update_round_trip, spec_encode_add,
    spec_encode_create, spec_encode_update,
};
use crate::client::client_state::{ClientState, lemma_apply_wf, spec_process_actions};
use crate::client::client_view::{ClientView, NewComponent};
use crate::client::replica_action::ActionView;
use crate::client::wire_action::{WireAction, spec_read_action};
use crate::packet_reader::Parsed;
use crate::diff_mask::spec_bit;
use crate::error::ProtocolError;
use crate::protocol_type::ProtocolKindType;
use crate::wire::{ReplicaView, lemma_merge_covers, spec_mask_size, spec_well_formed};

verus! {

/// Processing a section whose first record reads as `parsed` is applying
/// that record and processing the rest.
pub proof fn lemma_process_step<K: ProtocolKindType>(
    state: ClientState,
    registered: Set<u16>,
    tick: u16,
    count: nat,
    input: Seq<u8>,
    used: nat,
    parsed: Parsed<WireAction>,
)
    requires
        count > 0,
        spec_read_action::<K>(state.client.replicas, registered, input) == Ok::<
            Parsed<WireAction>,
            ProtocolError,
        >(parsed),
    ensures
        spec_process_actions::<K>(state, registered, tick, count, input, used)
            == spec_process_actions::<K>(
            state.apply(tick, parsed.value),
            registered,
            tick,
            (count - 1) as nat,
            input.skip(parsed.consumed as int),
            used + parsed.consumed,
        ),
{
}

/// A new entity that arrives with one component whose key is free is
/// known afterwards, and so is the component, with the values that were
/// sent; the host program is told of the entity, and then of the
/// component.
pub proof fn lemma_created_with(state: ClientState, tick: u16, entity: u16, first: NewComponent)
    requires
        state.client.wf(),
        !state.client.entities.contains_key(entity),
        !state.client.replicas.contains_key(first.key),
    ensures
        ({
            let after = state.apply(tick, WireAction::CreateEntity(entity, seq![first]));
            &&& after.client.wf()
            &&& after.client.entities.contains_key(entity)
            &&& after.client.replicas == state.client.replicas.insert(first.key, first.replica)
            &&& after.client.events == state.client.events.push(
                ActionView::CreateEntity(entity, seq![first.replica]),
            ).push(ActionView::AddComponent(entity, first.replica))
        }),
{
    lemma_apply_wf(state, tick, WireAction::CreateEntity(entity, seq![first]));
    let start = ClientView {
        entities: state.client.entities.insert(entity, Seq::empty()),
        ..state.client
    };
    reveal_with_fuel(ClientView::attach_components, 3);
    reveal_with_fuel(ClientView::attached, 3);
    assert(start.can_attach(entity, first.key));
    let attached = start.attach_component(entity, first);
    assert(start.attach_components(entity, seq![first], 0) == attached);
    let told = start.attached(entity, seq![first], 0);
    assert(told =~= seq![first.replica]);
    let after = state.apply(tick, WireAction::CreateEntity(entity, seq![first]));
    assert(after.client.events =~= state.client.events.push(
        ActionView::CreateEntity(entity, seq![first.replica]),
    ).push(ActionView::AddComponent(entity, first.replica)));
}

/// A component that is added to a known entity under a free key is known
/// afterwards, with the values that were sent; the others are as before.
pub proof fn lemma_added(state: ClientState, tick: u16, entity: u16, second: NewComponent)
    requires
        state.client.wf(),
        state.client.entities.contains_key(entity),
        !state.client.replicas.contains_key(second.key),
    ensures
        ({
            let after = state.apply(tick, WireAction::AddComponent(entity, second));
            &&& after.client.wf()
            &&& after.client.entities.contains_key(entity)
            &&& after.client.replicas == state.client.replicas.insert(second.key, second.replica)
        }),
{
    lemma_apply_wf(state, tick, WireAction::AddComponent(entity, second));
    assert(state.client.can_attach(entity, second.key));
}

/// New values for a known component, of its kind, are the values that the
/// client holds afterwards; the others are as before.
pub proof fn lemma_updated(state: ClientState, tick: u16, key: u16, replica: ReplicaView)
    requires
        state.client.wf(),
        state.client.replicas.contains_key(key),
        state.client.replicas[key].kind == replica.kind,
    ensures
        ({
            let after = state.apply(tick, WireAction::UpdateComponent(key, replica));
            &&& after.client.wf()
            &&& after.client.entities == state.client.entities
            &&& after.client.replicas == state.client.replicas.insert(key, replica)
        }),
{
    lemma_apply_wf(state, tick, WireAction::UpdateComponent(key, replica));
    assert(state.client.component_entity.contains_key(key));
    assert(state.client.can_update(key, replica));
}

/// A client that is sent a new entity with a component, then a second
/// component for it, then new values for the first under a mask that covers
/// what has changed, holds both components with the values that the server
/// has: the first as updated, the second as added.
pub proof fn lemma_create_add_update<K: ProtocolKindType>(
    state: ClientState,
    registered: Set<u16>,
    tick: u16,
    entity: u16,
    first: NewComponent,
    second: NewComponent,
    updated: ReplicaView,
    mask: Seq<u8>,
    rest: Seq<u8>,
    used: nat,
)
    requires
        state.client.wf(),
        !state.client.entities.contains_key(entity),
        !state.client.replicas.contains_key(first.key),
        !state.client.replicas.contains_key(second.key),
        first.key != second.key,
        spec_well_formed::<K>(first.replica),
        spec_well_formed::<K>(second.replica),
        spec_well_formed::<K>(updated),
        registered.contains(first.replica.kind),
        registered.contains(second.replica.kind),
        updated.kind == first.replica.kind,
        mask.len() == spec_mask_size(updated.props.len()),
        forall|i: nat|
            i < updated.props.len() && first.replica.props[i as int] != updated.props[i as int]
                ==> spec_bit(mask, i),
    ensures
        ({
            let create = spec_encode_create(entity, seq![first]);
            let add = spec_encode_add(entity, second);
            let update = spec_encode_update(first.key, mask, updated);
            let out = spec_process_actions::<K>(
                state,
                registered,
                tick,
                3,
                create + (add + (update + rest)),
                used,
            );
            &&& out.result == Ok::<nat, ProtocolError>(used + create.len() + add.len() + update.len())
            &&& out.state.client.wf()
            &&& out.state.client.entities.contains_key(entity)
            &&& out.state.client.replicas.contains_key(first.key)
            &&& out.state.client.replicas[first.key] == updated
            &&& out.state.client.replicas.contains_key(second.key)
            &&& out.state.client.replicas[second.key] == second.replica
        }),
{
    let create = spec_encode_create(entity, seq![first]);
    let add = spec_encode_add(entity, second);
    let update = spec_encode_update(first.key, mask, updated);
    let kind = K::spec_from_u16(updated.kind)->0;
    K::lemma_kind_number(updated.kind, kind);

    let first_action = WireAction::CreateEntity(entity, seq![first]);
    lemma_create_round_trip::<K>(
        state.client.replicas,
        registered,
        entity,
        seq![first],
        add + (update + rest),
    );
    lemma_process_step::<K>(
        state,
        registered,
        tick,
        3,
        create + (add + (update + rest)),
        used,
        Parsed { value: first_action, consumed: create.len() },
    );
    lemma_created_with(state, tick, entity, first);
    let created = state.apply(tick, first_action);

    let second_action = WireAction::AddComponent(entity, second);
    lemma_add_round_trip::<K>(created.client.replicas, registered, entity, second, update + rest);
    lemma_process_step::<K>(
        created,
        registered,
        tick,
        2,
        add + (update + rest),
        used + create.len(),
        Parsed { value: second_action, consumed: add.len() },
    );
    lemma_added(created, tick, entity, second);
    let added = created.apply(tick, second_action);

    let third_action = WireAction::UpdateComponent(first.key, updated);
    lemma_update_round_trip::<K>(added.client.replicas, registered, first.key, mask, updated, rest);
    lemma_merge_covers(first.replica, updated, mask);
    lemma_process_step::<K>(
        added,
        registered,
        tick,
        1,
        update + rest,
        used + create.len() + add.len(),
        Parsed { value: third_action, consumed: update.len() },
    );
    lemma_updated(added, tick, first.key, updated);
    let finished = added.apply(tick, third_action);
    assert(spec_process_actions::<K>(
        finished,
        registered,
        tick,
        0,
        rest,
        used + create.len() + add.len() + update.len(),
    ).state == finished);
}

} // verus!

//! The records of an entity section, as the server writes them, and the
//! proof that the client reads back what was written.

use vstd::prelude::*;
use crate::client::client_view::NewComponent;
use crate::client::wire_action::{
    WireAction, spec_read_action, spec_read_component, spec_read_components,
};
use crate::diff_mask::{DiffMask, lemma_mask_round_trip, spec_mask_wire};
use crate::error::ProtocolError;

use crate::packet_reader::{Parsed, lemma_u16_round_trip, spec_u16_bytes, write_u16, write_u8};
use crate::protocol_type::{ProtocolKindType, ProtocolType};
use crate::replica_action_type::{ReplicaActionType, spec_action_code};
use crate::wire::{
    ReplicaView, lemma_full_round_trip, lemma_partial_round_trip, spec_mask_size, spec_merge,
    spec_well_formed, spec_write, spec_write_partial,
};

verus! {

/// The bytes of a component: the number of its kind, its key, its full
/// body.
pub open spec fn spec_encode_component(component: NewComponent) -> Seq<u8> {
    spec_u16_bytes(component.replica.kind) + spec_u16_bytes(component.key) + spec_write(
        component.replica.props,
    )
}

/// The bytes of the components `components[from..]`, one after another.
pub open spec fn spec_encode_components(components: Seq<NewComponent>, from: nat) -> Seq<u8>
    decreases components.len() - from,
{
    if from >= components.len() {
        Seq::empty()
    } else {
        spec_encode_component(components[from as int]) + spec_encode_components(
            components,
            from + 1,
        )
    }
}

/// The bytes of a record that carries the key of an entity or of a
/// component and nothing else.
pub open spec fn spec_encode_keyed(action: ReplicaActionType, key: u16) -> Seq<u8> {
    seq![spec_action_code(action)] + spec_u16_bytes(key)
}

/// The bytes of the record that creates an entity with its components.
pub open spec fn spec_encode_create(entity: u16, components: Seq<NewComponent>) -> Seq<u8> {
    spec_encode_keyed(ReplicaActionType::CreateEntity, entity) + seq![components.len() as u8]
        + spec_encode_components(components, 0)
}

/// The bytes of the record that adds a component to an entity.
pub open spec fn spec_encode_add(entity: u16, component: NewComponent) -> Seq<u8> {
    spec_encode_keyed(ReplicaActionType::AddComponent, entity) + spec_encode_component(component)
}

/// The bytes of the record that brings the properties of a component that
/// `mask` selects up to those of `replica`.
pub open spec fn spec_encode_update(key: u16, mask: Seq<u8>, replica: ReplicaView) -> Seq<u8> {
    spec_encode_keyed(ReplicaActionType::UpdateComponent, key) + spec_mask_wire(mask)
        + spec_write_partial(replica.props, mask)
}

/// Appends a record that carries a key and nothing else.
pub fn write_keyed(out: &mut Vec<u8>, action: ReplicaActionType, key: u16)
    ensures
        final(out)@ == old(out)@ + spec_encode_keyed(action, key),
{
    write_u8(out, action.to_u8());
    write_u16(out, key);
    assert(out@ =~= old(out)@ + spec_encode_keyed(action, key));
}

/// Appends a component: the number of its kind, its key, its full body.
pub fn write_component<P: ProtocolType>(out: &mut Vec<u8>, key: u16, replica: &P)
    ensures
        final(out)@ == old(out)@ + spec_encode_component(
            NewComponent { key, replica: replica@ },
        ),
{
    write_u16(out, replica.kind().to_u16());
    write_u16(out, key);
    replica.write(out);
    assert(out@ =~= old(out)@ + spec_encode_component(NewComponent { key, replica: replica@ }));
}

/// Appends the record that adds a component to an entity.
pub fn write_add_component<P: ProtocolType>(out: &mut Vec<u8>, entity: u16, key: u16, replica: &P)
    ensures
        final(out)@ == old(out)@ + spec_encode_add(entity, NewComponent { key, replica: replica@ }),
{
    write_keyed(out, ReplicaActionType::AddComponent, entity);
    write_component(out, key, replica);
    assert(out@ =~= old(out)@ + spec_encode_add(
        entity,
        NewComponent { key, replica: replica@ },
    ));
}

/// Appends the record that brings the properties that `mask` selects up to
/// those of `replica`.
pub fn write_update_component<P: ProtocolType>(
    out: &mut Vec<u8>,
    key: u16,
    mask: &DiffMask,
    replica: &P,
)
    requires
        mask.wf(),
    ensures
        final(out)@ == old(out)@ + spec_encode_update(key, mask@, replica@),
{
    write_keyed(out, ReplicaActionType::UpdateComponent, key);
    mask.write(out);
    replica.write_partial(mask, out);
    assert(out@ =~= old(out)@ + spec_encode_update(key, mask@, replica@));
}

/// A record that carries only a key is read back as it was written.
pub proof fn lemma_keyed_round_trip<K: ProtocolKindType>(
    replicas: Map<u16, ReplicaView>,
    registered: Set<u16>,
    action: ReplicaActionType,
    key: u16,
    rest: Seq<u8>,
)
    requires
        action == ReplicaActionType::DeleteEntity || action == ReplicaActionType::DeleteComponent
            || action == ReplicaActionType::AssignPawnEntity || action
            == ReplicaActionType::UnassignPawnEntity,
    ensures
        spec_read_action::<K>(replicas, registered, spec_encode_keyed(action, key) + rest) == Ok::<
            Parsed<WireAction>,
            ProtocolError,
        >(
            Parsed {
                value: match action {
                    ReplicaActionType::DeleteEntity => WireAction::DeleteEntity(key),
                    ReplicaActionType::DeleteComponent => WireAction::DeleteComponent(key),
                    ReplicaActionType::AssignPawnEntity => WireAction::AssignPawnEntity(key),
                    _ => WireAction::UnassignPawnEntity(key),
                },
                consumed: 3,
            },
        ),
        (spec_encode_keyed(action, key) + rest).skip(3) == rest,
        spec_encode_keyed(action, key).len() == 3,
{
    let input = spec_encode_keyed(action, key) + rest;
    assert(input.skip(1) =~= spec_u16_bytes(key) + rest);
    lemma_u16_round_trip(key, rest);
    assert(input.skip(3) =~= rest);
}

/// A component is read back as it was written, whatever follows it.
pub proof fn lemma_component_round_trip<K: ProtocolKindType>(
    registered: Set<u16>,
    component: NewComponent,
    rest: Seq<u8>,
)
    requires
        spec_well_formed::<K>(component.replica),
        registered.contains(component.replica.kind),
    ensures
        spec_read_component::<K>(registered, spec_encode_component(component) + rest) == Ok::<
            Parsed<NewComponent>,
            ProtocolError,
        >(Parsed { value: component, consumed: spec_encode_component(component).len() }),
        (spec_encode_component(component) + rest).skip(
            spec_encode_component(component).len() as int,
        ) == rest,
{
    let body = spec_write(component.replica.props);
    let input = spec_encode_component(component) + rest;
    assert(input =~= spec_u16_bytes(component.replica.kind) + (spec_u16_bytes(component.key)
        + (body + rest)));
    lemma_u16_round_trip(component.replica.kind, spec_u16_bytes(component.key) + (body + rest));
    lemma_u16_round_trip(component.key, body + rest);
    assert(input.skip(2) =~= spec_u16_bytes(component.key) + (body + rest));
    assert(input.skip(4) =~= body + rest);
    lemma_full_round_trip::<K>(component.replica, rest);
    assert(input.skip(spec_encode_component(component).len() as int) =~= rest);
}

/// A list of components is read back as it was written.
pub proof fn lemma_components_round_trip<K: ProtocolKindType>(
    registered: Set<u16>,
    components: Seq<NewComponent>,
    from: nat,
    rest: Seq<u8>,
    done: Seq<NewComponent>,
    used: nat,
)
    requires
        from <= components.len(),
        forall|i: int|
            0 <= i < components.len() ==> spec_well_formed::<K>(
                (#[trigger] components[i]).replica,
            ) && registered.contains(components[i].replica.kind),
    ensures
        spec_read_components::<K>(
            registered,
            (components.len() - from) as nat,
            spec_encode_components(components, from) + rest,
            done,
            used,
        ) == Ok::<Parsed<Seq<NewComponent>>, ProtocolError>(
            Parsed {
                value: done + components.skip(from as int),
                consumed: used + spec_encode_components(components, from).len(),
            },
        ),
        (spec_encode_components(components, from) + rest).skip(
            spec_encode_components(components, from).len() as int,
        ) == rest,
    decreases components.len() - from,
{
    let written = spec_encode_components(components, from);
    assert((written + rest).skip(written.len() as int) =~= rest);
    if from < components.len() {
        let head = components[from as int];
        let tail = spec_encode_components(components, from + 1);
        let bytes = spec_encode_component(head);
        assert(written + rest =~= bytes + (tail + rest));
        lemma_component_round_trip::<K>(registered, head, tail + rest);
        lemma_components_round_trip::<K>(
            registered,
            components,
            from + 1,
            rest,
            done.push(head),
            used + bytes.len(),
        );
        assert(done.push(head) + components.skip(from as int + 1) =~= done + components.skip(
            from as int,
        ));
    } else {
        assert(done + components.skip(from as int) =~= done);
    }
}

/// The record that creates an entity is read back as it was written.
pub proof fn lemma_create_round_trip<K: ProtocolKindType>(
    replicas: Map<u16, ReplicaView>,
    registered: Set<u16>,
    entity: u16,
    components: Seq<NewComponent>,
    rest: Seq<u8>,
)
    requires
        components.len() <= 255,
        forall|i: int|
            0 <= i < components.len() ==> spec_well_formed::<K>(
                (#[trigger] components[i]).replica,
            ) && registered.contains(components[i].replica.kind),
    ensures
        spec_read_action::<K>(replicas, registered, spec_encode_create(entity, components) + rest)
            == Ok::<Parsed<WireAction>, ProtocolError>(
            Parsed {
                value: WireAction::CreateEntity(entity, components),
                consumed: spec_encode_create(entity, components).len(),
            },
        ),
        (spec_encode_create(entity, components) + rest).skip(
            spec_encode_create(entity, components).len() as int,
        ) == rest,
{
    let list = spec_encode_components(components, 0);
    let input = spec_encode_create(entity, components) + rest;
    let body = input.skip(1);
    assert(body =~= spec_u16_bytes(entity) + (seq![components.len() as u8] + (list + rest)));
    lemma_u16_round_trip(entity, seq![components.len() as u8] + (list + rest));
    assert(body[2] == components.len() as u8);
    assert(body.skip(3) =~= list + rest);
    lemma_components_round_trip::<K>(registered, components, 0, rest, Seq::empty(), 4);
    assert(Seq::<NewComponent>::empty() + components.skip(0) =~= components);
    assert(input.skip(spec_encode_create(entity, components).len() as int) =~= rest);
}

/// The record that adds a component is read back as it was written.
pub proof fn lemma_add_round_trip<K: ProtocolKindType>(
    replicas: Map<u16, ReplicaView>,
    registered: Set<u16>,
    entity: u16,
    component: NewComponent,
    rest: Seq<u8>,
)
    requires
        spec_well_formed::<K>(component.replica),
        registered.contains(component.replica.kind),
    ensures
        spec_read_action::<K>(replicas, registered, spec_encode_add(entity, component) + rest)
            == Ok::<Parsed<WireAction>, ProtocolError>(
            Parsed {
                value: WireAction::AddComponent(entity, component),
                consumed: spec_encode_add(entity, component).len(),
            },
        ),
        (spec_encode_add(entity, component) + rest).skip(
            spec_encode_add(entity, component).len() as int,
        ) == rest,
{
    let bytes = spec_encode_component(component);
    let input = spec_encode_add(entity, component) + rest;
    let body = input.skip(1);
    assert(body =~= spec_u16_bytes(entity) + (bytes + rest));
    lemma_u16_round_trip(entity, bytes + rest);
    assert(body.skip(2) =~= bytes + rest);
    lemma_component_round_trip::<K>(registered, component, rest);
    assert(input.skip(spec_encode_add(entity, component).len() as int) =~= rest);
}

/// The record that updates a component is read back as the component with
/// the masked properties replaced by those that were written.
pub proof fn lemma_update_round_trip<K: ProtocolKindType>(
    replicas: Map<u16, ReplicaView>,
    registered: Set<u16>,
    key: u16,
    mask: Seq<u8>,
    replica: ReplicaView,
    rest: Seq<u8>,
)
    requires
        replicas.contains_key(key),
        spec_well_formed::<K>(replicas[key]),
        spec_well_formed::<K>(replica),
        replicas[key].kind == replica.kind,
        mask.len() == spec_mask_size(replica.props.len()),
        mask.len() <= 255,
    ensures
        spec_read_action::<K>(replicas, registered, spec_encode_update(key, mask, replica) + rest)
            == Ok::<Parsed<WireAction>, ProtocolError>(
            Parsed {
                value: WireAction::UpdateComponent(
                    key,
                    ReplicaView {
                        kind: replica.kind,
                        props: spec_merge(replicas[key].props, replica.props, mask),
                    },
                ),
                consumed: spec_encode_update(key, mask, replica).len(),
            },
        ),
        (spec_encode_update(key, mask, replica) + rest).skip(
            spec_encode_update(key, mask, replica).len() as int,
        ) == rest,
{
    let partial = spec_write_partial(replica.props, mask);
    let input = spec_encode_update(key, mask, replica) + rest;
    let body = input.skip(1);
    assert(body =~= spec_u16_bytes(key) + (spec_mask_wire(mask) + (partial + rest)));
    lemma_u16_round_trip(key, spec_mask_wire(mask) + (partial + rest));
    assert(body.skip(2) =~= spec_mask_wire(mask) + (partial + rest));
    lemma_mask_round_trip(mask, partial + rest);
    assert(body.skip(2 + (1 + mask.len()) as int) =~= partial + rest);
    lemma_partial_round_trip::<K>(replica, replicas[key], mask, rest);
    assert(input.skip(spec_encode_update(key, mask, replica).len() as int) =~= rest);
}

} // verus!

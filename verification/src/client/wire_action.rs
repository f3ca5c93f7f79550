//! The records of an entity section, as the client reads them.

use vstd::prelude::*;
use crate::client::client_view::NewComponent;
use crate::diff_mask::spec_read_mask;
use crate::error::ProtocolError;
use crate::manifest::{Manifest, ReplicaBuilder, spec_create_replica};
use crate::packet_reader::{PacketReader, Parsed, spec_read_u16};
use crate::protocol_type::{ProtocolKindType, ProtocolType};
use crate::replica_action_type::{ReplicaActionType, spec_action_type};
use crate::wire::{ReplicaView, lemma_read_full_bounds, spec_mask_size, spec_read_partial};

verus! {

/// A record of an entity section.
pub enum WireAction {
    CreateEntity(u16, Seq<NewComponent>),
    DeleteEntity(u16),
    AddComponent(u16, NewComponent),
    DeleteComponent(u16),
    /// The key of a component, and the replica that it becomes.
    UpdateComponent(u16, ReplicaView),
    AssignPawnEntity(u16),
    UnassignPawnEntity(u16),
}

/// A component that was read from a packet.
pub struct DecodedComponent<P> {
    pub key: u16,
    pub replica: P,
}

/// A record that was read from a packet.
pub enum DecodedAction<P> {
    CreateEntity(u16, Vec<DecodedComponent<P>>),
    DeleteEntity(u16),
    AddComponent(u16, DecodedComponent<P>),
    DeleteComponent(u16),
    /// The key of a component, and the replica that it becomes.
    UpdateComponent(u16, P),
    AssignPawnEntity(u16),
    UnassignPawnEntity(u16),
}

impl<P: ProtocolType> DecodedComponent<P> {
    /// What this value is to the contracts.
    pub open spec fn view(&self) -> NewComponent {
        NewComponent { key: self.key, replica: self.replica@ }
    }
}

/// The views of a list of components.
pub open spec fn spec_components<P: ProtocolType>(components: Seq<DecodedComponent<P>>) -> Seq<
    NewComponent,
> {
    components.map_values(|component: DecodedComponent<P>| component@)
}

impl<P: ProtocolType> DecodedAction<P> {
    /// What this value is to the contracts.
    pub open spec fn view(&self) -> WireAction {
        match self {
            DecodedAction::CreateEntity(entity, components) => WireAction::CreateEntity(
                *entity,
                spec_components(components@),
            ),
            DecodedAction::DeleteEntity(entity) => WireAction::DeleteEntity(*entity),
            DecodedAction::AddComponent(entity, component) => WireAction::AddComponent(
                *entity,
                component@,
            ),
            DecodedAction::DeleteComponent(key) => WireAction::DeleteComponent(*key),
            DecodedAction::UpdateComponent(key, replica) => WireAction::UpdateComponent(
                *key,
                replica@,
            ),
            DecodedAction::AssignPawnEntity(entity) => WireAction::AssignPawnEntity(*entity),
            DecodedAction::UnassignPawnEntity(entity) => WireAction::UnassignPawnEntity(*entity),
        }
    }
}

/// What reading a component from the head of `input` gives: the number of
/// its kind, its key, and its full body.
pub open spec fn spec_read_component<K: ProtocolKindType>(
    registered: Set<u16>,
    input: Seq<u8>,
) -> Result<Parsed<NewComponent>, ProtocolError> {
    match spec_read_u16(input) {
        Err(e) => Err(e),
        Ok(kind) => match spec_read_u16(input.skip(2)) {
            Err(e) => Err(e),
            Ok(key) => match spec_create_replica::<K>(registered, kind, input.skip(4)) {
                Err(e) => Err(e),
                Ok(parsed) => Ok(
                    Parsed {
                        value: NewComponent { key, replica: parsed.value },
                        consumed: parsed.consumed + 4,
                    },
                ),
            },
        },
    }
}

/// What reading `count` more components from the head of `input` gives,
/// after the components `done` that took `used` bytes.
pub open spec fn spec_read_components<K: ProtocolKindType>(
    registered: Set<u16>,
    count: nat,
    input: Seq<u8>,
    done: Seq<NewComponent>,
    used: nat,
) -> Result<Parsed<Seq<NewComponent>>, ProtocolError>
    decreases count,
{
    if count == 0 {
        Ok(Parsed { value: done, consumed: used })
    } else {
        match spec_read_component::<K>(registered, input) {
            Err(e) => Err(e),
            Ok(parsed) => spec_read_components::<K>(
                registered,
                (count - 1) as nat,
                input.skip(parsed.consumed as int),
                done.push(parsed.value),
                used + parsed.consumed,
            ),
        }
    }
}

/// What reading the new values of a component from the head of `input`
/// gives: its key, a diff mask of the width that its kind asks, and the
/// properties that the mask selects, applied to the replica that the client
/// has.
pub open spec fn spec_read_update<K: ProtocolKindType>(
    replicas: Map<u16, ReplicaView>,
    input: Seq<u8>,
) -> Result<Parsed<WireAction>, ProtocolError> {
    match spec_read_u16(input) {
        Err(e) => Err(e),
        Ok(key) => if !replicas.contains_key(key) {
            Err(ProtocolError::UnknownComponent)
        } else {
            match spec_read_mask(input.skip(2)) {
                Err(e) => Err(e),
                Ok(mask) => if mask.value.len() != spec_mask_size(replicas[key].props.len()) {
                    Err(ProtocolError::MalformedMask)
                } else {
                    match spec_read_partial::<K>(
                        replicas[key],
                        mask.value,
                        input.skip(2 + mask.consumed as int),
                    ) {
                        Err(e) => Err(e),
                        Ok(parsed) => Ok(
                            Parsed {
                                value: WireAction::UpdateComponent(key, parsed.value),
                                consumed: 2 + mask.consumed + parsed.consumed,
                            },
                        ),
                    }
                },
            }
        },
    }
}

/// What reading one record from the head of `input` gives, for a client
/// that holds `replicas` and has builders for the kinds `registered`.
pub open spec fn spec_read_action<K: ProtocolKindType>(
    replicas: Map<u16, ReplicaView>,
    registered: Set<u16>,
    input: Seq<u8>,
) -> Result<Parsed<WireAction>, ProtocolError> {
    if input.len() < 1 {
        Err(ProtocolError::Truncated)
    } else {
        let body = input.skip(1);
        match spec_action_type(input[0]) {
            ReplicaActionType::CreateEntity => match spec_read_u16(body) {
                Err(e) => Err(e),
                Ok(entity) => if body.len() < 3 {
                    Err(ProtocolError::Truncated)
                } else {
                    match spec_read_components::<K>(
                        registered,
                        body[2] as nat,
                        body.skip(3),
                        Seq::empty(),
                        4,
                    ) {
                        Err(e) => Err(e),
                        Ok(parsed) => Ok(
                            Parsed {
                                value: WireAction::CreateEntity(entity, parsed.value),
                                consumed: parsed.consumed,
                            },
                        ),
                    }
                },
            },
            ReplicaActionType::DeleteEntity => match spec_read_u16(body) {
                Err(e) => Err(e),
                Ok(entity) => Ok(Parsed { value: WireAction::DeleteEntity(entity), consumed: 3 }),
            },
            ReplicaActionType::AddComponent => match spec_read_u16(body) {
                Err(e) => Err(e),
                Ok(entity) => match spec_read_component::<K>(registered, body.skip(2)) {
                    Err(e) => Err(e),
                    Ok(parsed) => Ok(
                        Parsed {
                            value: WireAction::AddComponent(entity, parsed.value),
                            consumed: parsed.consumed + 3,
                        },
                    ),
                },
            },
            ReplicaActionType::DeleteComponent => match spec_read_u16(body) {
                Err(e) => Err(e),
                Ok(key) => Ok(Parsed { value: WireAction::DeleteComponent(key), consumed: 3 }),
            },
            ReplicaActionType::UpdateComponent => match spec_read_update::<K>(replicas, body) {
                Err(e) => Err(e),
                Ok(parsed) => Ok(Parsed { value: parsed.value, consumed: parsed.consumed + 1 }),
            },
            ReplicaActionType::AssignPawnEntity => match spec_read_u16(body) {
                Err(e) => Err(e),
                Ok(entity) => Ok(
                    Parsed { value: WireAction::AssignPawnEntity(entity), consumed: 3 },
                ),
            },
            ReplicaActionType::UnassignPawnEntity => match spec_read_u16(body) {
                Err(e) => Err(e),
                Ok(entity) => Ok(
                    Parsed { value: WireAction::UnassignPawnEntity(entity), consumed: 3 },
                ),
            },
            ReplicaActionType::Unknown => Err(ProtocolError::UnknownAction),
        }
    }
}

/// Reads one component: the number of its kind, its key, its full body.
pub fn read_component<P: ProtocolType, B: ReplicaBuilder<P>>(
    manifest: &Manifest<P, B>,
    reader: &mut PacketReader,
    packet_index: u16,
) -> (r: Result<DecodedComponent<P>, ProtocolError>)
    requires
        manifest.wf(),
        old(reader).wf(),
    ensures
        final(reader).wf(),
        final(reader).bytes() == old(reader).bytes(),
        match r {
            Ok(component) => spec_read_component::<P::Kind>(manifest@, old(reader).remaining())
                matches Ok(parsed) && parsed.value == component@ && final(reader).remaining()
                == old(reader).remaining().skip(parsed.consumed as int),
            Err(e) => spec_read_component::<P::Kind>(manifest@, old(reader).remaining()) == Err::<
                Parsed<NewComponent>,
                ProtocolError,
            >(e),
        },
{
    let ghost input = reader.remaining();
    let kind = reader.read_u16()?;
    let key = reader.read_u16()?;
    assert(input.skip(2).skip(2) =~= input.skip(4));
    let replica = manifest.create_replica(kind, reader, packet_index)?;
    proof {
        let parsed = spec_create_replica::<P::Kind>(manifest@, kind, input.skip(4))->Ok_0;
        lemma_read_full_bounds::<P::Kind>(kind, input.skip(4));
        assert(input.skip(4).skip(parsed.consumed as int) =~= input.skip(
            parsed.consumed as int + 4,
        ));
    }
    Ok(DecodedComponent { key, replica })
}

/// Reads the components of a new entity.
pub fn read_components<P: ProtocolType, B: ReplicaBuilder<P>>(
    manifest: &Manifest<P, B>,
    count: u8,
    reader: &mut PacketReader,
    packet_index: u16,
    Ghost(used): Ghost<nat>,
) -> (r: Result<Vec<DecodedComponent<P>>, ProtocolError>)
    requires
        manifest.wf(),
        old(reader).wf(),
    ensures
        final(reader).wf(),
        final(reader).bytes() == old(reader).bytes(),
        match r {
            Ok(components) => spec_read_components::<P::Kind>(
                manifest@,
                count as nat,
                old(reader).remaining(),
                Seq::empty(),
                used,
            ) matches Ok(parsed) && parsed.value == spec_components(components@)
                && parsed.consumed >= used && final(reader).remaining() == old(
                reader,
            ).remaining().skip(parsed.consumed - used),
            Err(e) => spec_read_components::<P::Kind>(
                manifest@,
                count as nat,
                old(reader).remaining(),
                Seq::empty(),
                used,
            ) == Err::<Parsed<Seq<NewComponent>>, ProtocolError>(e),
        },
{
    let ghost input = reader.remaining();
    let mut components: Vec<DecodedComponent<P>> = Vec::new();
    let mut i: u8 = 0;
    let ghost mut taken: nat = 0;
    assert(spec_components(components@) =~= Seq::<NewComponent>::empty());
    assert(input.skip(0) =~= input);
    while i < count
        invariant
            i <= count,
            manifest.wf(),
            reader.wf(),
            reader.bytes() == old(reader).bytes(),
            input == old(reader).remaining(),
            taken <= input.len(),
            reader.remaining() == input.skip(taken as int),
            spec_read_components::<P::Kind>(manifest@, count as nat, input, Seq::empty(), used)
                == spec_read_components::<P::Kind>(
                manifest@,
                (count - i) as nat,
                reader.remaining(),
                spec_components(components@),
                used + taken,
            ),
        decreases count - i,
    {
        let ghost before = reader.remaining();
        let ghost listed = spec_components(components@);
        let component = match read_component(manifest, reader, packet_index) {
            Ok(component) => component,
            Err(e) => {
                assert(spec_read_components::<P::Kind>(
                    manifest@,
                    (count - i) as nat,
                    before,
                    listed,
                    used + taken,
                ) == Err::<Parsed<Seq<NewComponent>>, ProtocolError>(e));
                return Err(e);
            },
        };
        proof {
            let parsed = spec_read_component::<P::Kind>(manifest@, before)->Ok_0;
            lemma_component_bounds::<P::Kind>(manifest@, before);
            assert(input.skip(taken as int).skip(parsed.consumed as int) =~= input.skip(
                taken as int + parsed.consumed as int,
            ));
            taken = taken + parsed.consumed;
        }
        components.push(component);
        assert(spec_components(components@) =~= listed.push(component@));
        i = i + 1;
    }
    Ok(components)
}

/// A component that was read took no more bytes than there were.
pub proof fn lemma_component_bounds<K: ProtocolKindType>(registered: Set<u16>, input: Seq<u8>)
    ensures
        spec_read_component::<K>(registered, input) matches Ok(parsed) ==> 4 <= parsed.consumed
            <= input.len(),
{
    if let Ok(parsed) = spec_read_component::<K>(registered, input) {
        lemma_read_full_bounds::<K>(spec_read_u16(input)->Ok_0, input.skip(4));
    }
}

/// A record that was read took at least one byte and no more than there
/// were.
pub proof fn lemma_action_bounds<K: ProtocolKindType>(
    replicas: Map<u16, ReplicaView>,
    registered: Set<u16>,
    input: Seq<u8>,
)
    ensures
        spec_read_action::<K>(replicas, registered, input) matches Ok(parsed) ==> 1
            <= parsed.consumed <= input.len(),
{
    if let Ok(parsed) = spec_read_action::<K>(replicas, registered, input) {
        let body = input.skip(1);
        match spec_action_type(input[0]) {
            ReplicaActionType::CreateEntity => {
                lemma_components_bounds::<K>(
                    registered,
                    body[2] as nat,
                    body.skip(3),
                    Seq::empty(),
                    4,
                );
            },
            ReplicaActionType::AddComponent => {
                lemma_component_bounds::<K>(registered, body.skip(2));
            },
            ReplicaActionType::UpdateComponent => {
                let key = spec_read_u16(body)->Ok_0;
                let mask = spec_read_mask(body.skip(2))->Ok_0;
                let kind = K::spec_from_u16(replicas[key].kind)->0;
                crate::wire::lemma_read_partial_bounds(
                    kind,
                    replicas[key].props,
                    mask.value,
                    0,
                    body.skip(2 + mask.consumed as int),
                );
            },
            _ => {},
        }
    }
}

/// A list of components that was read took no more bytes than there were.
pub proof fn lemma_components_bounds<K: ProtocolKindType>(
    registered: Set<u16>,
    count: nat,
    input: Seq<u8>,
    done: Seq<NewComponent>,
    used: nat,
)
    ensures
        spec_read_components::<K>(registered, count, input, done, used) matches Ok(parsed)
            ==> used <= parsed.consumed <= used + input.len(),
    decreases count,
{
    if count > 0 {
        if let Ok(parsed) = spec_read_component::<K>(registered, input) {
            lemma_component_bounds::<K>(registered, input);
            lemma_components_bounds::<K>(
                registered,
                (count - 1) as nat,
                input.skip(parsed.consumed as int),
                done.push(parsed.value),
                used + parsed.consumed,
            );
        }
    }
}

} // verus!

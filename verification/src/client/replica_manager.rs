//! The client's copies of the entities and components that the server has
//! put in its scope, and the predicted copies of those it drives.

use vstd::prelude::*;
use std::collections::{HashMap, HashSet, VecDeque};
use crate::client::client_state::{
    ClientState, Processed, lemma_apply_wf, spec_process_actions, spec_process_data,
};
use crate::client::client_view::{ClientView, NewComponent, spec_added};
use crate::client::command_receiver::CommandReceiver;
use crate::client::component_record::{ComponentEntry, ComponentRecord, spec_without_key};
use crate::client::replica_action::{ActionView, ReplicaAction, spec_action_views, spec_views};
use crate::client::wire_action::{
    DecodedAction, DecodedComponent, WireAction, lemma_action_bounds, lemma_component_bounds,
    read_component,
    read_components, spec_components, spec_read_action, spec_read_component,
    spec_read_components, spec_read_update,
};
use crate::diff_mask::DiffMask;
use crate::error::ProtocolError;
use crate::manifest::{Manifest, ReplicaBuilder};
use crate::packet_reader::{PacketReader, Parsed};
use crate::protocol_type::{ProtocolKindType, ProtocolType};
use crate::replica_action_type::ReplicaActionType;
use crate::replicate::Replicate;
use crate::wire::{ReplicaView, lemma_read_partial_bounds, spec_read_partial};

verus! {

/// The key under which a connection knows an entity.
pub type LocalEntityKey = u16;

/// The key under which a connection knows a component.
pub type LocalComponentKey = u16;

/// The client's replicas.
pub struct ReplicaManager<P: ProtocolType> {
    local_replica_store: HashMap<u16, P>,
    queued_incoming_messages: VecDeque<ReplicaAction<P>>,
    pawn_store: HashMap<u16, P>,
    local_entity_store: HashMap<u16, ComponentRecord>,
    pawn_entity_store: HashSet<u16>,
    component_entity_map: HashMap<u16, u16>,
}

impl<P: ProtocolType> ReplicaManager<P> {
    /// What this value is to the contracts.
    pub closed spec fn view(&self) -> ClientView {
        ClientView {
            replicas: self.local_replica_store@.map_values(|replica: P| replica@),
            pawns: self.pawn_store@.map_values(|replica: P| replica@),
            entities: self.local_entity_store@.map_values(|record: ComponentRecord| record@),
            pawn_entities: self.pawn_entity_store@,
            component_entity: self.component_entity_map@,
            events: spec_action_views(self.queued_incoming_messages@),
        }
    }

    /// The stores agree with one another.
    pub open spec fn wf(&self) -> bool {
        self@.wf()
    }

    /// A manager that knows of nothing.
    pub fn new() -> (manager: Self)
        ensures
            manager.wf(),
            manager@.replicas == Map::<u16, ReplicaView>::empty(),
            manager@.pawns == Map::<u16, ReplicaView>::empty(),
            manager@.entities == Map::<u16, Seq<ComponentEntry>>::empty(),
            manager@.pawn_entities == Set::<u16>::empty(),
            manager@.component_entity == Map::<u16, u16>::empty(),
            manager@.events == Seq::<ActionView>::empty(),
    {
        let manager = ReplicaManager {
            queued_incoming_messages: VecDeque::new(),
            local_replica_store: HashMap::new(),
            pawn_store: HashMap::new(),
            local_entity_store: HashMap::new(),
            pawn_entity_store: HashSet::new(),
            component_entity_map: HashMap::new(),
        };
        assert(manager@.replicas =~= Map::<u16, ReplicaView>::empty());
        assert(manager@.pawns =~= Map::<u16, ReplicaView>::empty());
        assert(manager@.entities =~= Map::<u16, Seq<ComponentEntry>>::empty());
        assert(manager@.events =~= Seq::<ActionView>::empty());
        manager
    }

    /// Takes the oldest change that the host program has not seen yet.
    pub fn pop_incoming_message(&mut self) -> (r: Option<ReplicaAction<P>>)
        ensures
            match r {
                Some(action) => old(self)@.events.len() > 0 && action@ == old(self)@.events[0]
                    && final(self)@ == (ClientView {
                    events: old(self)@.events.skip(1),
                    ..old(self)@
                }),
                None => old(self)@.events.len() == 0 && final(self)@ == old(self)@,
            },
            final(self).wf() == old(self).wf(),
    {
        let r = self.queued_incoming_messages.pop_front();
        proof {
            if r is Some {
                assert(self@.events =~= old(self)@.events.skip(1));
            } else {
                assert(self@.events =~= old(self)@.events);
            }
            let after = self@;
            let before = old(self)@;
            assert(after.component_entity == before.component_entity);
            assert(after.entities == before.entities);
            assert(after.replicas == before.replicas);
            assert(after.pawns == before.pawns);
            assert(after.components_owned() == before.components_owned());
            assert(after.records_mapped() == before.records_mapped());
            assert(after.replicas_mapped() == before.replicas_mapped());
            assert(after.pawns_copied() == before.pawns_copied());
            assert(after.pawns_typed() == before.pawns_typed());
        }
        r
    }

    /// The replica of the component `key`.
    pub fn get_component(&self, key: &LocalComponentKey) -> (r: Option<&P>)
        ensures
            match r {
                Some(replica) => self@.replicas.contains_key(*key) && replica@
                    == self@.replicas[*key],
                None => !self@.replicas.contains_key(*key),
            },
    {
        self.local_replica_store.get(key)
    }

    /// Whether the component `key` is known.
    pub fn has_component(&self, key: &LocalComponentKey) -> (r: bool)
        ensures
            r == self@.replicas.contains_key(*key),
    {
        self.local_replica_store.contains_key(key)
    }

    /// Whether the entity `key` is known.
    pub fn has_entity(&self, key: &LocalEntityKey) -> (r: bool)
        ensures
            r == self@.entities.contains_key(*key),
    {
        self.local_entity_store.contains_key(key)
    }

    /// Whether the client drives the entity `key`.
    pub fn is_pawn(&self, key: &LocalEntityKey) -> (r: bool)
        ensures
            r == self@.pawn_entities.contains(*key),
    {
        self.pawn_entity_store.contains(key)
    }

    /// Sets the predicted copy of the entity `key` back to what the server
    /// says, and tells the host program so.
    pub fn pawn_reset_entity(&mut self, key: &LocalEntityKey)
        ensures
            final(self)@ == old(self)@.pawn_reset_entity(*key),
            old(self).wf() ==> final(self).wf(),
    {
        proof {
            if self.wf() {
                crate::client::client_view::lemma_pawn_reset_entity(self@, *key);
            }
        }
        let keys = match self.local_entity_store.get(key) {
            Some(record) => record.get_component_keys(),
            None => Vec::new(),
        };
        let ghost start = self@;
        let mut i: usize = 0;
        while i < keys.len()
            invariant
                i <= keys@.len(),
                start.reset_components(keys@, 0) == self@.reset_components(keys@, i as nat),
            decreases keys@.len() - i,
        {
            let component_key = keys[i];
            let ghost before = self@;
            if self.local_replica_store.contains_key(&component_key) {
                match self.pawn_store.remove(&component_key) {
                    Some(mut pawn) => {
                        let replica = self.local_replica_store.get(&component_key).unwrap();
                        pawn.mirror(replica);
                        self.pawn_store.insert(component_key, pawn);
                    },
                    None => {},
                }
            }
            proof {
                let after = before.reset_component(component_key);
                assert(self@.pawns =~= after.pawns);
            }
            i = i + 1;
        }
        self.queued_incoming_messages.push_back(ReplicaAction::ResetPawnEntity(*key));
        proof {
            let reset = start.reset_components(keys@, 0);
            assert(self@.events =~= reset.events.push(ActionView::ResetPawnEntity(*key)));
            if !old(self)@.entities.contains_key(*key) {
                assert(keys@.len() == 0);
            }
        }
    }

    /// The components of the entity `key`, in the order in which it got
    /// them.
    pub fn get_components(&self, key: &LocalEntityKey) -> (components: Vec<P>)
        ensures
            spec_views(components@) == self@.listed_replicas(*key, self@.replicas),
    {
        let mut output: Vec<P> = Vec::new();
        match self.local_entity_store.get(key) {
            Some(record) => {
                let keys = record.get_component_keys();
                let mut i: usize = 0;
                assert(spec_views(output@) =~= Seq::<ReplicaView>::empty());
                while i < keys.len()
                    invariant
                        i <= keys@.len(),
                        spec_views(output@) + ClientView::present(self@.replicas, keys@, i as nat)
                            == ClientView::present(self@.replicas, keys@, 0),
                    decreases keys@.len() - i,
                {
                    let ghost before = spec_views(output@);
                    let ghost rest = ClientView::present(self@.replicas, keys@, (i + 1) as nat);
                    match self.local_replica_store.get(&keys[i]) {
                        Some(component) => {
                            output.push(component.copy());
                            assert(spec_views(output@) =~= before.push(component@));
                            assert(before.push(component@) + rest =~= before + (seq![component@]
                                + rest));
                        },
                        None => {},
                    }
                    i = i + 1;
                }
                assert(spec_views(output@) + Seq::<ReplicaView>::empty() =~= spec_views(output@));
            },
            None => {
                assert(spec_views(output@) =~= Seq::<ReplicaView>::empty());
            },
        }
        output
    }

    /// The predicted copies of the components of the pawn `key`, in the
    /// order in which it got them; none for an entity that is no pawn.
    pub fn get_pawn_components(&self, key: &LocalEntityKey) -> (components: Vec<P>)
        ensures
            spec_views(components@) == (if self@.pawn_entities.contains(*key) {
                self@.listed_replicas(*key, self@.pawns)
            } else {
                Seq::<ReplicaView>::empty()
            }),
    {
        let mut output: Vec<P> = Vec::new();
        if !self.pawn_entity_store.contains(key) {
            assert(spec_views(output@) =~= Seq::<ReplicaView>::empty());
            return output;
        }
        match self.local_entity_store.get(key) {
            Some(record) => {
                let keys = record.get_component_keys();
                let mut i: usize = 0;
                assert(spec_views(output@) =~= Seq::<ReplicaView>::empty());
                while i < keys.len()
                    invariant
                        i <= keys@.len(),
                        spec_views(output@) + ClientView::present(self@.pawns, keys@, i as nat)
                            == ClientView::present(self@.pawns, keys@, 0),
                    decreases keys@.len() - i,
                {
                    let ghost before = spec_views(output@);
                    let ghost rest = ClientView::present(self@.pawns, keys@, (i + 1) as nat);
                    match self.pawn_store.get(&keys[i]) {
                        Some(component) => {
                            output.push(component.copy());
                            assert(spec_views(output@) =~= before.push(component@));
                            assert(before.push(component@) + rest =~= before + (seq![component@]
                                + rest));
                        },
                        None => {},
                    }
                    i = i + 1;
                }
                assert(spec_views(output@) + Seq::<ReplicaView>::empty() =~= spec_views(output@));
            },
            None => {
                assert(spec_views(output@) =~= Seq::<ReplicaView>::empty());
            },
        }
        output
    }

    /// The component of the entity `key` that is of the replica type `R`.
    pub fn get_component_by_type<R: Replicate<P>>(&self, key: &LocalEntityKey) -> (r: Option<&R>)
        ensures
            match r {
                Some(replica) => self@.typed_key(*key, R::spec_kind().spec_to_u16())
                    matches Some(component) && self@.replicas.contains_key(component)
                    && self@.replicas[component] == replica@,
                None => self@.typed_key(*key, R::spec_kind().spec_to_u16()) matches Some(
                    component,
                ) ==> !self@.replicas.contains_key(component) || self@.replicas[component].kind
                    != R::spec_kind().spec_to_u16(),
            },
    {
        let kind = R::get_kind().to_u16();
        match self.local_entity_store.get(key) {
            Some(record) => match record.get_key_from_type(kind) {
                Some(component_key) => match self.local_replica_store.get(&component_key) {
                    Some(protocol) => R::cast_ref(protocol),
                    None => None,
                },
                None => None,
            },
            None => None,
        }
    }

    /// The predicted copy of the component of the entity `key` that is of
    /// the replica type `R`.
    pub fn get_pawn_component_by_type<R: Replicate<P>>(&self, key: &LocalEntityKey) -> (r: Option<
        &R,
    >)
        ensures
            match r {
                Some(replica) => self@.typed_key(*key, R::spec_kind().spec_to_u16())
                    matches Some(component) && self@.pawns.contains_key(component)
                    && self@.pawns[component] == replica@,
                None => self@.typed_key(*key, R::spec_kind().spec_to_u16()) matches Some(
                    component,
                ) ==> !self@.pawns.contains_key(component) || self@.pawns[component].kind
                    != R::spec_kind().spec_to_u16(),
            },
    {
        let kind = R::get_kind().to_u16();
        match self.local_entity_store.get(key) {
            Some(record) => match record.get_key_from_type(kind) {
                Some(component_key) => match self.pawn_store.get(&component_key) {
                    Some(protocol) => R::cast_ref(protocol),
                    None => None,
                },
                None => None,
            },
            None => None,
        }
    }

    /// Gives the predicted copy of the component of the pawn `key` that is
    /// of the kind of `replica` the values of `replica`: the host program
    /// has run a command on it. Returns whether there was such a copy.
    pub fn update_pawn_component(&mut self, key: &LocalEntityKey, replica: &P) -> (updated: bool)
        ensures
            final(self)@ == old(self)@.predict(*key, replica@),
            updated == old(self)@.can_predict(*key, replica@),
            old(self).wf() ==> final(self).wf(),
    {
        proof {
            if self.wf() {
                crate::client::client_view::lemma_predict_wf(self@, *key, replica@);
            }
        }
        let kind = replica.kind().to_u16();
        let component_key = match self.local_entity_store.get(key) {
            Some(record) => match record.get_key_from_type(kind) {
                Some(component_key) => component_key,
                None => {
                    return false;
                },
            },
            None => {
                return false;
            },
        };
        match self.pawn_store.remove(&component_key) {
            Some(mut pawn) => {
                let same = pawn.kind().to_u16() == kind;
                if same {
                    pawn.mirror(replica);
                }
                self.pawn_store.insert(component_key, pawn);
                proof {
                    assert(self@.pawns =~= old(self)@.predict(*key, replica@).pawns);
                }
                same
            },
            None => {
                assert(self@.pawns =~= old(self)@.pawns);
                false
            },
        }
    }

    /// Forgets the component `component_key` of `entity_key`: its predicted
    /// copy and its replica go, and the host program is told if there was a
    /// replica.
    fn component_delete_cleanup(
        &mut self,
        entity_key: &LocalEntityKey,
        component_key: &LocalComponentKey,
    )
        ensures
            final(self)@ == old(self)@.forget_component(*entity_key, *component_key),
    {
        self.pawn_store.remove(component_key);
        match self.local_replica_store.remove(component_key) {
            Some(component) => {
                self.queued_incoming_messages.push_back(
                    ReplicaAction::RemoveComponent(*entity_key, component),
                );
            },
            None => {},
        }
        proof {
            let after = old(self)@.forget_component(*entity_key, *component_key);
            assert(self@.pawns =~= after.pawns);
            assert(self@.replicas =~= after.replicas);
            assert(self@.events =~= after.events);
        }
    }

    /// Attaches a component to an entity that is known, under a key that is
    /// free.
    fn attach(&mut self, entity: u16, key: u16, replica: P)
        requires
            old(self)@.can_attach(entity, key),
        ensures
            final(self)@ == old(self)@.attach_component(
                entity,
                NewComponent { key, replica: replica@ },
            ),
    {
        let kind = replica.kind().to_u16();
        if self.pawn_entity_store.contains(&entity) {
            self.pawn_store.insert(key, replica.copy());
        }
        self.local_replica_store.insert(key, replica);
        self.component_entity_map.insert(key, entity);
        match self.local_entity_store.remove(&entity) {
            Some(mut record) => {
                record.insert_component(key, kind);
                self.local_entity_store.insert(entity, record);
            },
            None => {},
        }
        proof {
            let after = old(self)@.attach_component(
                entity,
                NewComponent { key, replica: replica@ },
            );
            assert(self@.pawns =~= after.pawns);
            assert(self@.replicas =~= after.replicas);
            assert(self@.entities =~= after.entities);
            assert(self@.events =~= after.events);
        }
    }

    fn create_entity(&mut self, entity: u16, components: &Vec<DecodedComponent<P>>)
        ensures
            final(self)@ == old(self)@.create_entity(entity, spec_components(components@)),
    {
        if self.local_entity_store.contains_key(&entity) {
            return ;
        }
        self.local_entity_store.insert(entity, ComponentRecord::new());
        let ghost listed = spec_components(components@);
        let ghost start = self@;
        proof {
            let expected = ClientView {
                entities: old(self)@.entities.insert(entity, Seq::<ComponentEntry>::empty()),
                ..old(self)@
            };
            assert(start.entities =~= expected.entities);
            assert(start == expected);
        }
        let mut list: Vec<P> = Vec::new();
        let mut added: Vec<P> = Vec::new();
        let mut i: usize = 0;
        assert(spec_views(list@) =~= Seq::<ReplicaView>::empty());
        assert(spec_views(added@) =~= spec_views(list@));
        while i < components.len()
            invariant
                i <= components@.len(),
                listed == spec_components(components@),
                spec_views(added@) == spec_views(list@),
                self@.attach_components(entity, listed, i as nat) == start.attach_components(
                    entity,
                    listed,
                    0,
                ),
                spec_views(list@) + self@.attached(entity, listed, i as nat) == start.attached(
                    entity,
                    listed,
                    0,
                ),
            decreases components@.len() - i,
        {
            let component = &components[i];
            let ghost before = spec_views(list@);
            let ghost now = self@;
            let ghost rest = now.attach_component(entity, listed[i as int]).attached(
                entity,
                listed,
                (i + 1) as nat,
            );
            assert(listed[i as int] == component@);
            if self.local_entity_store.contains_key(&entity)
                && !self.local_replica_store.contains_key(&component.key) {
                self.attach(entity, component.key, component.replica.copy());
                list.push(component.replica.copy());
                added.push(component.replica.copy());
                proof {
                    assert(spec_views(list@) =~= before.push(component@.replica));
                    assert(spec_views(added@) =~= before.push(component@.replica));
                    assert(before.push(component@.replica) + rest =~= before + (seq![
                        component@.replica,
                    ] + rest));
                }
            }
            i = i + 1;
        }
        let ghost filled = start.attach_components(entity, listed, 0);
        let ghost attached = start.attached(entity, listed, 0);
        let ghost told = filled.events.push(ActionView::CreateEntity(entity, attached));
        proof {
            assert(spec_views(list@) + Seq::<ReplicaView>::empty() =~= spec_views(list@));
        }
        self.queued_incoming_messages.push_back(ReplicaAction::CreateEntity(entity, list));
        proof {
            assert(self@.events =~= told);
            assert(told + spec_added(entity, attached).take(0) =~= told);
        }
        let mut j: usize = 0;
        while j < added.len()
            invariant
                j <= added@.len(),
                spec_views(added@) == attached,
                self@ == (ClientView {
                    events: told + spec_added(entity, attached).take(j as int),
                    ..filled
                }),
            decreases added@.len() - j,
        {
            let ghost before = self@.events;
            self.queued_incoming_messages.push_back(
                ReplicaAction::AddComponent(entity, added[j].copy()),
            );
            proof {
                assert(attached[j as int] == added@[j as int]@);
                assert(self@.events =~= before.push(
                    ActionView::AddComponent(entity, attached[j as int]),
                ));
                assert(told + spec_added(entity, attached).take(j + 1) =~= (told + spec_added(
                    entity,
                    attached,
                ).take(j as int)).push(ActionView::AddComponent(entity, attached[j as int])));
            }
            j = j + 1;
        }
        proof {
            assert(spec_added(entity, attached).take(j as int) =~= spec_added(entity, attached));
        }
    }

    fn delete_entity(&mut self, entity: u16, command_receiver: &mut CommandReceiver<P>)
        requires
            old(command_receiver).wf(),
        ensures
            final(command_receiver).wf(),
            (ClientState { client: final(self)@, commands: final(command_receiver)@ }) == (
            ClientState { client: old(self)@, commands: old(command_receiver)@ }).apply(
                0,
                WireAction::DeleteEntity(entity),
            ),
    {
        match self.local_entity_store.remove(&entity) {
            Some(record) => {
                if self.pawn_entity_store.remove(&entity) {
                    command_receiver.pawn_cleanup(&entity);
                }
                let keys = record.get_component_keys();
                let ghost start = self@;
                proof {
                    let expected = ClientView {
                        entities: old(self)@.entities.remove(entity),
                        pawn_entities: old(self)@.pawn_entities.remove(entity),
                        ..old(self)@
                    };
                    assert(start.entities =~= expected.entities);
                    assert(start.pawn_entities =~= expected.pawn_entities);
                    assert(start == expected);
                }
                let mut i: usize = 0;
                while i < keys.len()
                    invariant
                        i <= keys@.len(),
                        self@.drop_components(entity, keys@, i as nat) == start.drop_components(
                            entity,
                            keys@,
                            0,
                        ),
                    decreases keys@.len() - i,
                {
                    let component_key = keys[i];
                    self.component_delete_cleanup(&entity, &component_key);
                    self.component_entity_map.remove(&component_key);
                    i = i + 1;
                }
                self.queued_incoming_messages.push_back(ReplicaAction::DeleteEntity(entity));
                proof {
                    let dropped = start.drop_components(entity, keys@, 0);
                    assert(self@.events =~= dropped.events.push(ActionView::DeleteEntity(entity)));
                }
            },
            None => {
                assert(self@.entities =~= old(self)@.entities);
            },
        }
    }

    fn delete_component(&mut self, key: u16)
        ensures
            final(self)@ == old(self)@.delete_component(key),
    {
        match self.component_entity_map.remove(&key) {
            Some(entity) => {
                match self.local_entity_store.remove(&entity) {
                    Some(mut record) => {
                        record.remove_component(key);
                        self.local_entity_store.insert(entity, record);
                    },
                    None => {},
                }
                let ghost middle = self@;
                proof {
                    let expected = ClientView {
                        entities: if old(self)@.entities.contains_key(entity) {
                            old(self)@.entities.insert(
                                entity,
                                spec_without_key(old(self)@.entities[entity], key),
                            )
                        } else {
                            old(self)@.entities
                        },
                        component_entity: old(self)@.component_entity.remove(key),
                        ..old(self)@
                    };
                    assert(middle.entities =~= expected.entities);
                    assert(middle == expected);
                }
                self.component_delete_cleanup(&entity, &key);
                proof {
                    let after = old(self)@.delete_component(key);
                    assert(self@.entities == after.entities);
                    assert(self@.component_entity == after.component_entity);
                    assert(self@.replicas == after.replicas);
                    assert(self@.pawns == after.pawns);
                    assert(self@.events == after.events);
                }
            },
            None => {
                assert(self@.component_entity =~= old(self)@.component_entity);
            },
        }
    }

    fn assign_pawn(&mut self, entity: u16, command_receiver: &mut CommandReceiver<P>)
        requires
            old(command_receiver).wf(),
        ensures
            final(command_receiver).wf(),
            (ClientState { client: final(self)@, commands: final(command_receiver)@ }) == (
            ClientState { client: old(self)@, commands: old(command_receiver)@ }).apply(
                0,
                WireAction::AssignPawnEntity(entity),
            ),
    {
        let keys = match self.local_entity_store.get(&entity) {
            Some(record) => record.get_component_keys(),
            None => {
                return ;
            },
        };
        self.pawn_entity_store.insert(entity);
        let ghost start = self@;
        let mut i: usize = 0;
        while i < keys.len()
            invariant
                i <= keys@.len(),
                self@.copy_components(keys@, i as nat) == start.copy_components(keys@, 0),
            decreases keys@.len() - i,
        {
            let component_key = keys[i];
            let ghost now = self@;
            match self.local_replica_store.get(&component_key) {
                Some(protocol) => {
                    let copy = protocol.copy();
                    self.pawn_store.insert(component_key, copy);
                },
                None => {},
            }
            proof {
                let after = now.copy_component(component_key);
                assert(self@.pawns =~= after.pawns);
            }
            i = i + 1;
        }
        command_receiver.pawn_init(&entity);
        self.queued_incoming_messages.push_back(ReplicaAction::AssignPawnEntity(entity));
        proof {
            let copied = start.copy_components(keys@, 0);
            assert(self@.events =~= copied.events.push(ActionView::AssignPawnEntity(entity)));
        }
    }

    fn unassign_pawn(&mut self, entity: u16, command_receiver: &mut CommandReceiver<P>)
        requires
            old(command_receiver).wf(),
        ensures
            final(command_receiver).wf(),
            (ClientState { client: final(self)@, commands: final(command_receiver)@ }) == (
            ClientState { client: old(self)@, commands: old(command_receiver)@ }).apply(
                0,
                WireAction::UnassignPawnEntity(entity),
            ),
    {
        if self.pawn_entity_store.contains(&entity) {
            self.pawn_entity_store.remove(&entity);
            let keys = match self.local_entity_store.get(&entity) {
                Some(record) => record.get_component_keys(),
                None => Vec::new(),
            };
            let ghost start = self@;
            let mut i: usize = 0;
            while i < keys.len()
                invariant
                    i <= keys@.len(),
                    self@.uncopy_components(keys@, i as nat) == start.uncopy_components(keys@, 0),
                decreases keys@.len() - i,
            {
                let component_key = keys[i];
                let ghost now = self@;
                self.pawn_store.remove(&component_key);
                proof {
                    let after = ClientView { pawns: now.pawns.remove(component_key), ..now };
                    assert(self@.pawns =~= after.pawns);
                }
                i = i + 1;
            }
            command_receiver.pawn_cleanup(&entity);
        }
        let ghost released = self@;
        self.queued_incoming_messages.push_back(ReplicaAction::UnassignPawnEntity(entity));
        proof {
            assert(self@.events =~= released.events.push(ActionView::UnassignPawnEntity(entity)));
        }
    }

    fn add_component(&mut self, entity: u16, component: DecodedComponent<P>)
        ensures
            final(self)@ == old(self)@.add_component(entity, component@),
    {
        if self.local_entity_store.contains_key(&entity) && !self.local_replica_store.contains_key(
            &component.key,
        ) {
            self.attach(entity, component.key, component.replica.copy());
            let ghost attached = self@;
            self.queued_incoming_messages.push_back(
                ReplicaAction::AddComponent(entity, component.replica),
            );
            proof {
                assert(self@.events =~= attached.events.push(
                    ActionView::AddComponent(entity, component@.replica),
                ));
            }
        }
    }

    fn update_component(
        &mut self,
        key: u16,
        replica: P,
        packet_tick: u16,
        command_receiver: &mut CommandReceiver<P>,
    )
        requires
            old(command_receiver).wf(),
        ensures
            final(command_receiver).wf(),
            (ClientState { client: final(self)@, commands: final(command_receiver)@ }) == (
            ClientState { client: old(self)@, commands: old(command_receiver)@ }).apply(
                packet_tick,
                WireAction::UpdateComponent(key, replica@),
            ),
    {
        let same_kind = match self.local_replica_store.get(&key) {
            Some(current) => current.kind().to_u16() == replica.kind().to_u16(),
            None => false,
        };
        if !same_kind {
            return ;
        }
        let entity = match self.component_entity_map.get(&key) {
            Some(entity) => *entity,
            None => {
                return ;
            },
        };
        self.local_replica_store.insert(key, replica.copy());
        if self.pawn_entity_store.contains(&entity) {
            command_receiver.replay_commands(packet_tick, &entity);
            command_receiver.remove_history_until(packet_tick, &entity);
        }
        self.queued_incoming_messages.push_back(ReplicaAction::UpdateComponent(entity, replica));
        proof {
            let after = old(self)@.update_component(key, replica@);
            assert(self@.replicas =~= after.replicas);
            assert(self@.events =~= after.events);
        }
    }

    /// Applies one record of a packet of tick `packet_tick` to the stores
    /// and to the commands.
    pub fn apply_action(
        &mut self,
        command_receiver: &mut CommandReceiver<P>,
        packet_tick: u16,
        action: DecodedAction<P>,
    )
        requires
            old(command_receiver).wf(),
        ensures
            final(command_receiver).wf(),
            old(self).wf() ==> final(self).wf(),
            (ClientState { client: final(self)@, commands: final(command_receiver)@ }) == (
            ClientState { client: old(self)@, commands: old(command_receiver)@ }).apply(
                packet_tick,
                action@,
            ),
    {
        proof {
            if old(self).wf() {
                lemma_apply_wf(
                    ClientState { client: old(self)@, commands: old(command_receiver)@ },
                    packet_tick,
                    action@,
                );
            }
        }
        match action {
            DecodedAction::CreateEntity(entity, components) => {
                self.create_entity(entity, &components);
            },
            DecodedAction::DeleteEntity(entity) => {
                self.delete_entity(entity, command_receiver);
            },
            DecodedAction::AddComponent(entity, component) => {
                self.add_component(entity, component);
            },
            DecodedAction::DeleteComponent(key) => {
                self.delete_component(key);
            },
            DecodedAction::UpdateComponent(key, replica) => {
                self.update_component(key, replica, packet_tick, command_receiver);
            },
            DecodedAction::AssignPawnEntity(entity) => {
                self.assign_pawn(entity, command_receiver);
            },
            DecodedAction::UnassignPawnEntity(entity) => {
                self.unassign_pawn(entity, command_receiver);
            },
        }
    }

    /// Reads the new values of a component.
    fn read_update(&self, reader: &mut PacketReader, packet_index: u16) -> (r: Result<
        DecodedAction<P>,
        ProtocolError,
    >)
        requires
            old(reader).wf(),
        ensures
            final(reader).wf(),
            final(reader).bytes() == old(reader).bytes(),
            match r {
                Ok(action) => spec_read_update::<P::Kind>(self@.replicas, old(reader).remaining())
                    matches Ok(parsed) && parsed.value == action@ && final(reader).remaining()
                    == old(reader).remaining().skip(parsed.consumed as int),
                Err(e) => spec_read_update::<P::Kind>(self@.replicas, old(reader).remaining())
                    == Err::<Parsed<WireAction>, ProtocolError>(e),
            },
    {
        let ghost input = reader.remaining();
        let key = reader.read_u16()?;
        let current = match self.local_replica_store.get(&key) {
            Some(current) => current,
            None => {
                return Err(ProtocolError::UnknownComponent);
            },
        };
        assert(self@.replicas[key] == current@);
        let diff_mask = DiffMask::read(reader)?;
        if diff_mask.byte_number() != current.get_diff_mask_size() {
            return Err(ProtocolError::MalformedMask);
        }
        let ghost body = reader.remaining();
        proof {
            assert(input.skip(2).skip(diff_mask@.len() as int + 1) =~= input.skip(
                2 + diff_mask@.len() as int + 1,
            ));
        }
        let mut replica = current.copy();
        replica.read_partial(&diff_mask, reader, packet_index)?;
        proof {
            let parsed = spec_read_partial::<P::Kind>(current@, diff_mask@, body)->Ok_0;
            replica.lemma_well_formed();
            current.lemma_well_formed();
            let kind = P::Kind::spec_from_u16(current@.kind)->0;
            lemma_read_partial_bounds(kind, current@.props, diff_mask@, 0, body);
            assert(body.skip(parsed.consumed as int) =~= input.skip(
                2 + (diff_mask@.len() as int + 1) + parsed.consumed as int,
            ));
        }
        Ok(DecodedAction::UpdateComponent(key, replica))
    }

    /// Reads one record: its code, then what the code asks for. A record is
    /// read whole or not at all; nothing in the stores changes.
    pub fn read_action<B: ReplicaBuilder<P>>(
        &self,
        manifest: &Manifest<P, B>,
        reader: &mut PacketReader,
        packet_index: u16,
    ) -> (r: Result<DecodedAction<P>, ProtocolError>)
        requires
            manifest.wf(),
            old(reader).wf(),
        ensures
            final(reader).wf(),
            final(reader).bytes() == old(reader).bytes(),
            match r {
                Ok(action) => spec_read_action::<P::Kind>(
                    self@.replicas,
                    manifest@,
                    old(reader).remaining(),
                ) matches Ok(parsed) && parsed.value == action@ && final(reader).remaining()
                    == old(reader).remaining().skip(parsed.consumed as int),
                Err(e) => spec_read_action::<P::Kind>(
                    self@.replicas,
                    manifest@,
                    old(reader).remaining(),
                ) == Err::<Parsed<WireAction>, ProtocolError>(e),
            },
    {
        let ghost input = reader.remaining();
        let code = reader.read_u8()?;
        let ghost body = reader.remaining();
        match ReplicaActionType::from_u8(code) {
            ReplicaActionType::CreateEntity => {
                let entity = reader.read_u16()?;
                let count = reader.read_u8()?;
                proof {
                    assert(body.skip(2).skip(1) =~= body.skip(3));
                    assert(body.skip(2)[0] == body[2]);
                }
                let components = read_components(manifest, count, reader, packet_index, Ghost(4))?;
                proof {
                    let parsed = spec_read_components::<P::Kind>(
                        manifest@,
                        count as nat,
                        body.skip(3),
                        Seq::empty(),
                        4,
                    )->Ok_0;
                    crate::client::wire_action::lemma_components_bounds::<P::Kind>(
                        manifest@,
                        count as nat,
                        body.skip(3),
                        Seq::empty(),
                        4,
                    );
                    assert(body.skip(3).skip(parsed.consumed - 4) =~= input.skip(
                        parsed.consumed as int,
                    ));
                }
                Ok(DecodedAction::CreateEntity(entity, components))
            },
            ReplicaActionType::DeleteEntity => {
                let entity = reader.read_u16()?;
                assert(body.skip(2) =~= input.skip(3));
                Ok(DecodedAction::DeleteEntity(entity))
            },
            ReplicaActionType::AddComponent => {
                let entity = reader.read_u16()?;
                let component = read_component(manifest, reader, packet_index)?;
                proof {
                    let parsed = spec_read_component::<P::Kind>(manifest@, body.skip(2))->Ok_0;
                    lemma_component_bounds::<P::Kind>(manifest@, body.skip(2));
                    assert(body.skip(2).skip(parsed.consumed as int) =~= input.skip(
                        parsed.consumed as int + 3,
                    ));
                }
                Ok(DecodedAction::AddComponent(entity, component))
            },
            ReplicaActionType::DeleteComponent => {
                let key = reader.read_u16()?;
                assert(body.skip(2) =~= input.skip(3));
                Ok(DecodedAction::DeleteComponent(key))
            },
            ReplicaActionType::UpdateComponent => {
                let action = self.read_update(reader, packet_index)?;
                proof {
                    let parsed = spec_read_update::<P::Kind>(self@.replicas, body)->Ok_0;
                    lemma_action_bounds::<P::Kind>(self@.replicas, manifest@, input);
                    assert(body.skip(parsed.consumed as int) =~= input.skip(
                        parsed.consumed as int + 1,
                    ));
                }
                Ok(action)
            },
            ReplicaActionType::AssignPawnEntity => {
                let entity = reader.read_u16()?;
                assert(body.skip(2) =~= input.skip(3));
                Ok(DecodedAction::AssignPawnEntity(entity))
            },
            ReplicaActionType::UnassignPawnEntity => {
                let entity = reader.read_u16()?;
                assert(body.skip(2) =~= input.skip(3));
                Ok(DecodedAction::UnassignPawnEntity(entity))
            },
            ReplicaActionType::Unknown => Err(ProtocolError::UnknownAction),
        }
    }

    /// Processes a section of entity records of a packet of tick
    /// `packet_tick`: the number of records, then the records, each applied
    /// in the order of the wire. At the first record that is at fault
    /// processing stops and the fault is returned; the records before it
    /// stay applied.
    pub fn process_data<B: ReplicaBuilder<P>>(
        &mut self,
        manifest: &Manifest<P, B>,
        command_receiver: &mut CommandReceiver<P>,
        packet_tick: u16,
        packet_index: u16,
        reader: &mut PacketReader,
    ) -> (r: Result<(), ProtocolError>)
        requires
            manifest.wf(),
            old(command_receiver).wf(),
            old(reader).wf(),
        ensures
            final(command_receiver).wf(),
            final(reader).wf(),
            final(reader).bytes() == old(reader).bytes(),
            old(self).wf() ==> final(self).wf(),
            ({
                let out = spec_process_data::<P::Kind>(
                    ClientState { client: old(self)@, commands: old(command_receiver)@ },
                    manifest@,
                    packet_tick,
                    old(reader).remaining(),
                );
                &&& out.state == (ClientState {
                    client: final(self)@,
                    commands: final(command_receiver)@,
                })
                &&& match r {
                    Ok(_) => out.result matches Ok(used) && final(reader).remaining() == old(
                        reader,
                    ).remaining().skip(used as int),
                    Err(e) => out.result == Err::<nat, ProtocolError>(e),
                }
            }),
    {
        let ghost input = reader.remaining();
        let ghost start = ClientState { client: self@, commands: command_receiver@ };
        let count = reader.read_u8()?;
        let ghost mut used: nat = 1;
        let mut i: u8 = 0;
        while i < count
            invariant
                i <= count,
                manifest.wf(),
                command_receiver.wf(),
                reader.wf(),
                reader.bytes() == old(reader).bytes(),
                old(self).wf() ==> self.wf(),
                input == old(reader).remaining(),
                input.len() >= 1,
                count == input[0],
                start == (ClientState { client: old(self)@, commands: old(command_receiver)@ }),
                used <= input.len(),
                reader.remaining() == input.skip(used as int),
                spec_process_actions::<P::Kind>(
                    ClientState { client: self@, commands: command_receiver@ },
                    manifest@,
                    packet_tick,
                    (count - i) as nat,
                    reader.remaining(),
                    used,
                ) == spec_process_actions::<P::Kind>(
                    start,
                    manifest@,
                    packet_tick,
                    count as nat,
                    input.skip(1),
                    1,
                ),
            decreases count - i,
        {
            let ghost before = reader.remaining();
            let ghost now = ClientState { client: self@, commands: command_receiver@ };
            let action = match self.read_action(manifest, reader, packet_index) {
                Ok(action) => action,
                Err(e) => {
                    assert(spec_process_actions::<P::Kind>(
                        now,
                        manifest@,
                        packet_tick,
                        (count - i) as nat,
                        before,
                        used,
                    ) == (Processed { state: now, result: Err(e) }));
                    return Err(e);
                },
            };
            proof {
                let parsed = spec_read_action::<P::Kind>(now.client.replicas, manifest@, before)->Ok_0;
                assert(reader.remaining().len() <= reader.bytes().len()) by {
                    reader.lemma_remaining();
                }
                assert(parsed.consumed <= before.len()) by {
                    reader.lemma_remaining();
                    lemma_action_bounds::<P::Kind>(now.client.replicas, manifest@, before);
                }
                assert(input.skip(used as int).skip(parsed.consumed as int) =~= input.skip(
                    used as int + parsed.consumed as int,
                ));
                used = used + parsed.consumed;
            }
            self.apply_action(command_receiver, packet_tick, action);
            i = i + 1;
        }
        Ok(())
    }
}

} // verus!

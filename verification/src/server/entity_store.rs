//! The world of the server: its entities and their components.

use vstd::prelude::*;
use std::collections::HashMap;
use crate::diff_mask::DiffMask;
use crate::key_set::{
    KeySet, lemma_index_of, lemma_with_without, spec_among, spec_distinct, spec_has,
    spec_index_of, spec_with, spec_without,
};
use crate::protocol_type::{ProtocolKindType, ProtocolType};
use crate::server::keys::{ReplicaKey, EntityKey};
use crate::wire::{ReplicaView, spec_is_diff};

verus! {

/// An entity: its key and its components, in the order in which it got
/// them.
pub struct EntityView {
    pub key: EntityKey,
    pub components: Seq<u64>,
}

/// A component: the entity that owns it, and its values.
pub struct ComponentView {
    pub entity: EntityKey,
    pub replica: ReplicaView,
}

/// The place of the entity `key` among `entities`, or their number if there
/// is none.
pub open spec fn spec_find_entity(entities: Seq<EntityView>, key: EntityKey) -> int
    decreases entities.len(),
{
    if entities.len() == 0 {
        0
    } else if entities[0].key == key {
        0
    } else {
        1 + spec_find_entity(entities.skip(1), key)
    }
}

/// The first of `components[from..]` that is of kind `kind` in the store
/// `store`.
pub open spec fn spec_of_kind(
    store: Map<u64, ComponentView>,
    components: Seq<u64>,
    kind: u16,
    from: nat,
) -> Option<u64>
    decreases components.len() - from,
{
    if from >= components.len() {
        None
    } else if store.contains_key(components[from as int])
        && store[components[from as int]].replica.kind == kind {
        Some(components[from as int])
    } else {
        spec_of_kind(store, components, kind, from + 1)
    }
}

/// The world of a server.
pub struct WorldView {
    /// The entities, in the order in which they were spawned.
    pub entities: Seq<EntityView>,
    /// The components, by key.
    pub components: Map<u64, ComponentView>,
    /// The key that the next entity or component gets.
    pub next_key: u64,
}

impl WorldView {
    /// Whether there is an entity `key`.
    pub open spec fn has_entity(self, key: EntityKey) -> bool {
        spec_find_entity(self.entities, key) < self.entities.len()
    }

    /// The entity `key`.
    pub open spec fn entity(self, key: EntityKey) -> EntityView {
        self.entities[spec_find_entity(self.entities, key)]
    }

    /// The component of kind `kind` that `entity` has.
    pub open spec fn component_of_kind(self, entity: EntityKey, kind: u16) -> Option<u64> {
        if self.has_entity(entity) {
            spec_of_kind(self.components, self.entity(entity).components, kind, 0)
        } else {
            None
        }
    }

    /// The keys in use have all been given out: the next key is new.
    pub open spec fn fresh(self) -> bool {
        &&& forall|i: int|
            0 <= i < self.entities.len() ==> (#[trigger] self.entities[i]).key < self.next_key
        &&& forall|c: u64| (#[trigger] self.components.contains_key(c)) ==> c < self.next_key
    }

    /// No two entities have one key.
    pub open spec fn keys_distinct(self) -> bool {
        forall|i: int, j: int|
            0 <= i < j < self.entities.len() ==> (#[trigger] self.entities[i]).key != (
            #[trigger] self.entities[j]).key
    }

    /// Every component that an entity lists exists and is owned by it, and
    /// no entity lists a component twice.
    pub open spec fn lists_owned(self) -> bool {
        &&& forall|i: int|
            0 <= i < self.entities.len() ==> spec_distinct((#[trigger] self.entities[i]).components)
        &&& forall|i: int, j: int|
            0 <= i < self.entities.len() && 0 <= j < self.entities[i].components.len() ==> {
                let c = #[trigger] self.entities[i].components[j];
                self.components.contains_key(c) && self.components[c].entity
                    == self.entities[i].key
            }
    }

    /// Every component is listed by the entity that owns it, which exists.
    pub open spec fn components_listed(self) -> bool {
        forall|c: u64|
            (#[trigger] self.components.contains_key(c)) ==> self.has_entity(
                self.components[c].entity,
            ) && spec_has(self.entity(self.components[c].entity).components, c)
    }

    /// An entity owns at most one component of each kind.
    pub open spec fn kinds_distinct(self) -> bool {
        forall|i: int, a: int, b: int|
            0 <= i < self.entities.len() && 0 <= a < b < self.entities[i].components.len()
                ==> self.components[#[trigger] self.entities[i].components[a]].replica.kind
                != self.components[#[trigger] self.entities[i].components[b]].replica.kind
    }

    /// The world is sound: keys are unique, every component belongs to
    /// exactly one entity, which exists and lists it, and an entity owns at
    /// most one component of each kind.
    pub open spec fn wf(self) -> bool {
        &&& self.fresh()
        &&& self.keys_distinct()
        &&& self.lists_owned()
        &&& self.components_listed()
        &&& self.kinds_distinct()
    }

    /// Whether a replica of kind `kind` can become a component of `entity`:
    /// the entity exists, has none of that kind, and a key is left.
    pub open spec fn can_insert(self, entity: EntityKey, kind: u16) -> bool {
        &&& self.has_entity(entity)
        &&& self.component_of_kind(entity, kind) is None
        &&& self.next_key < u64::MAX
    }

    /// The state after `replica` has become a component of `entity`.
    pub open spec fn insert_component(self, entity: EntityKey, replica: ReplicaView) -> WorldView {
        if self.can_insert(entity, replica.kind) {
            let i = spec_find_entity(self.entities, entity);
            WorldView {
                entities: self.entities.update(
                    i,
                    EntityView {
                        key: entity,
                        components: self.entities[i].components.push(self.next_key),
                    },
                ),
                components: self.components.insert(
                    self.next_key,
                    ComponentView { entity, replica },
                ),
                next_key: (self.next_key + 1) as u64,
            }
        } else {
            self
        }
    }

    /// The state after the component `key` has been removed.
    pub open spec fn remove_component(self, key: ReplicaKey) -> WorldView {
        if self.components.contains_key(key) {
            let entity = self.components[key].entity;
            let i = spec_find_entity(self.entities, entity);
            WorldView {
                entities: if i < self.entities.len() {
                    self.entities.update(
                        i,
                        EntityView {
                            key: entity,
                            components: spec_without(self.entities[i].components, key),
                        },
                    )
                } else {
                    self.entities
                },
                components: self.components.remove(key),
                ..self
            }
        } else {
            self
        }
    }

    /// The components without `keys[from..]`.
    pub open spec fn without_components(
        components: Map<u64, ComponentView>,
        keys: Seq<u64>,
        from: nat,
    ) -> Map<u64, ComponentView>
        decreases keys.len() - from,
    {
        if from >= keys.len() {
            components
        } else {
            Self::without_components(components.remove(keys[from as int]), keys, from + 1)
        }
    }

    /// The state after `entity` has been despawned: it is gone, and so are
    /// its components.
    pub open spec fn despawn_entity(self, entity: EntityKey) -> WorldView {
        if self.has_entity(entity) {
            let i = spec_find_entity(self.entities, entity);
            WorldView {
                entities: self.entities.remove(i),
                components: Self::without_components(
                    self.components,
                    self.entities[i].components,
                    0,
                ),
                ..self
            }
        } else {
            self
        }
    }

    /// Whether `replica` can take the place of the values of the component
    /// `key`: the component exists and is of the kind of `replica`.
    pub open spec fn can_update(self, key: ReplicaKey, replica: ReplicaView) -> bool {
        self.components.contains_key(key) && self.components[key].replica.kind == replica.kind
    }

    /// The state after the component `key` has been given the values of
    /// `replica`.
    pub open spec fn update_component(self, key: ReplicaKey, replica: ReplicaView) -> WorldView {
        if self.can_update(key, replica) {
            WorldView {
                components: self.components.insert(
                    key,
                    ComponentView { entity: self.components[key].entity, replica },
                ),
                ..self
            }
        } else {
            self
        }
    }
}

struct EntityEntry {
    key: EntityKey,
    components: KeySet,
}

impl EntityEntry {
    closed spec fn view(&self) -> EntityView {
        EntityView { key: self.key, components: self.components@ }
    }
}

struct ComponentSlot<P> {
    entity: EntityKey,
    replica: P,
}

impl<P: ProtocolType> ComponentSlot<P> {
    closed spec fn view(&self) -> ComponentView {
        ComponentView { entity: self.entity, replica: self.replica@ }
    }
}

/// The entities of a server and their components.
pub struct EntityStore<P: ProtocolType> {
    entities: Vec<EntityEntry>,
    components: HashMap<u64, ComponentSlot<P>>,
    next_key: u64,
}

impl<P: ProtocolType> EntityStore<P> {
    /// What this value is to the contracts.
    pub closed spec fn view(&self) -> WorldView {
        WorldView {
            entities: self.entities@.map_values(|entry: EntityEntry| entry@),
            components: self.components@.map_values(|slot: ComponentSlot<P>| slot@),
            next_key: self.next_key,
        }
    }

    /// The value is sound.
    pub open spec fn wf(&self) -> bool {
        self@.wf()
    }

    /// An empty world.
    pub fn new() -> (store: Self)
        ensures
            store.wf(),
            store@ == (WorldView {
                entities: Seq::empty(),
                components: Map::empty(),
                next_key: 0,
            }),
    {
        let store = EntityStore { entities: Vec::new(), components: HashMap::new(), next_key: 0 };
        assert(store@.entities =~= Seq::<EntityView>::empty());
        assert(store@.components =~= Map::<u64, ComponentView>::empty());
        store
    }

    fn find_entity(&self, key: EntityKey) -> (i: usize)
        ensures
            i == spec_find_entity(self@.entities, key),
            i <= self.entities@.len(),
    {
        let mut i: usize = 0;
        let ghost entities = self@.entities;
        assert(entities.skip(0) =~= entities);
        while i < self.entities.len()
            invariant
                i <= self.entities@.len(),
                entities == self@.entities,
                spec_find_entity(entities, key) == i + spec_find_entity(
                    entities.skip(i as int),
                    key,
                ),
            decreases self.entities@.len() - i,
        {
            assert(entities.skip(i as int)[0] == entities[i as int]);
            assert(entities.skip(i as int).skip(1) =~= entities.skip(i + 1));
            if self.entities[i].key == key {
                return i;
            }
            i = i + 1;
        }
        i
    }

    /// Makes an entity without components. Returns its key, or `None` if
    /// the keys have run out.
    pub fn spawn_entity(&mut self) -> (r: Option<EntityKey>)
        ensures
            old(self).wf() ==> final(self).wf(),
            match r {
                Some(key) => key == old(self)@.next_key && final(self)@ == (WorldView {
                    entities: old(self)@.entities.push(
                        EntityView { key, components: Seq::empty() },
                    ),
                    next_key: (key + 1) as u64,
                    ..old(self)@
                }),
                None => old(self)@.next_key == u64::MAX && final(self)@ == old(self)@,
            },
    {
        if self.next_key == u64::MAX {
            return None;
        }
        proof {
            if self.wf() {
                lemma_spawn_wf(self@);
            }
        }
        let key = self.next_key;
        self.entities.push(EntityEntry { key, components: KeySet::new() });
        self.next_key = key + 1;
        assert(self@.entities =~= old(self)@.entities.push(
            EntityView { key, components: Seq::empty() },
        ));
        Some(key)
    }

    /// Whether there is an entity `key`.
    pub fn has_entity(&self, key: EntityKey) -> (found: bool)
        ensures
            found == self@.has_entity(key),
    {
        self.find_entity(key) < self.entities.len()
    }

    /// How many entities there are.
    pub fn entity_count(&self) -> (n: usize)
        ensures
            n == self@.entities.len(),
    {
        self.entities.len()
    }

    /// The key of the entity at place `index`.
    pub fn entity_key_at(&self, index: usize) -> (key: EntityKey)
        requires
            index < self@.entities.len(),
        ensures
            key == self@.entities[index as int].key,
    {
        self.entities[index].key
    }

    /// The keys of the components of `entity`, in order.
    pub fn entity_components(&self, entity: EntityKey) -> (r: Option<Vec<u64>>)
        ensures
            match r {
                Some(keys) => self@.has_entity(entity) && keys@ == self@.entity(entity).components,
                None => !self@.has_entity(entity),
            },
    {
        let i = self.find_entity(entity);
        if i < self.entities.len() {
            Some(self.entities[i].components.to_vec())
        } else {
            None
        }
    }

    /// The values of the component `key`.
    pub fn get_component(&self, key: ReplicaKey) -> (r: Option<&P>)
        ensures
            match r {
                Some(replica) => self@.components.contains_key(key) && replica@
                    == self@.components[key].replica,
                None => !self@.components.contains_key(key),
            },
    {
        match self.components.get(&key) {
            Some(slot) => Some(&slot.replica),
            None => None,
        }
    }

    /// The entity that owns the component `key`.
    pub fn component_entity(&self, key: ReplicaKey) -> (r: Option<EntityKey>)
        ensures
            r == (if self@.components.contains_key(key) {
                Some(self@.components[key].entity)
            } else {
                None
            }),
    {
        match self.components.get(&key) {
            Some(slot) => Some(slot.entity),
            None => None,
        }
    }

    /// The component of the kind numbered `kind` that `entity` has.
    pub fn component_of_kind(&self, entity: EntityKey, kind: u16) -> (r: Option<ReplicaKey>)
        ensures
            r == self@.component_of_kind(entity, kind),
    {
        let i = self.find_entity(entity);
        if i >= self.entities.len() {
            return None;
        }
        let entry = &self.entities[i];
        let ghost listed = self@.entities[i as int].components;
        let mut j: usize = 0;
        while j < entry.components.len()
            invariant
                j <= entry.components@.len(),
                listed == entry.components@,
                self@.has_entity(entity),
                listed == self@.entity(entity).components,
                spec_of_kind(self@.components, listed, kind, j as nat) == spec_of_kind(
                    self@.components,
                    listed,
                    kind,
                    0,
                ),
            decreases entry.components@.len() - j,
        {
            let key = entry.components.get(j);
            match self.components.get(&key) {
                Some(slot) => {
                    assert(self@.components[key] == slot@);
                    if slot.replica.kind().to_u16() == kind {
                        return Some(key);
                    }
                },
                None => {},
            }
            j = j + 1;
        }
        None
    }

    /// Makes `replica` a component of `entity`. Returns the key of the
    /// component, or `None` if the entity does not exist, has a component
    /// of that kind already, or the keys have run out.
    pub fn insert_component(&mut self, entity: EntityKey, replica: P) -> (r: Option<ReplicaKey>)
        ensures
            old(self).wf() ==> final(self).wf(),
            final(self)@ == old(self)@.insert_component(entity, replica@),
            r == (if old(self)@.can_insert(entity, replica@.kind) {
                Some(old(self)@.next_key)
            } else {
                None
            }),
    {
        proof {
            if self.wf() {
                lemma_insert_component_wf(self@, entity, replica@);
            }
        }
        let kind = replica.kind().to_u16();
        if self.next_key == u64::MAX {
            return None;
        }
        let i = self.find_entity(entity);
        if i >= self.entities.len() {
            return None;
        }
        if self.component_of_kind(entity, kind).is_some() {
            return None;
        }
        let key = self.next_key;
        let ghost listed = self@.entities[i as int];
        let mut entry = self.entities.remove(i);
        proof {
            lemma_find_entity(old(self)@.entities, entity);
            assert(entry@ == listed);
        }
        entry.components.push_new(key);
        self.entities.insert(i, entry);
        self.components.insert(key, ComponentSlot { entity, replica });
        self.next_key = key + 1;
        proof {
            let after = old(self)@.insert_component(entity, replica@);
            assert(self@.entities =~= after.entities);
            assert(self@.components =~= after.components);
        }
        Some(key)
    }

    /// Removes the component `key`. Returns its values.
    pub fn remove_component(&mut self, key: ReplicaKey) -> (r: Option<P>)
        ensures
            old(self).wf() ==> final(self).wf(),
            final(self)@ == old(self)@.remove_component(key),
            match r {
                Some(replica) => old(self)@.components.contains_key(key) && replica@
                    == old(self)@.components[key].replica,
                None => !old(self)@.components.contains_key(key),
            },
    {
        proof {
            if self.wf() {
                lemma_remove_component_wf(self@, key);
            }
        }
        match self.components.remove(&key) {
            Some(slot) => {
                let i = self.find_entity(slot.entity);
                if i < self.entities.len() {
                    let ghost listed = self@.entities[i as int];
                    let mut entry = self.entities.remove(i);
                    proof {
                        lemma_find_entity(old(self)@.entities, slot.entity);
                        assert(entry@ == listed);
                    }
                    entry.components.remove(key);
                    self.entities.insert(i, entry);
                }
                proof {
                    let after = old(self)@.remove_component(key);
                    assert(self@.entities =~= after.entities);
                    assert(self@.components =~= after.components);
                }
                Some(slot.replica)
            },
            None => {
                assert(self@.components =~= old(self)@.components);
                None
            },
        }
    }

    /// Despawns `entity` with its components. Returns the keys of the
    /// components that went with it, or `None` if there is no such entity.
    pub fn despawn_entity(&mut self, entity: EntityKey) -> (r: Option<Vec<u64>>)
        ensures
            old(self).wf() ==> final(self).wf(),
            final(self)@ == old(self)@.despawn_entity(entity),
            match r {
                Some(keys) => old(self)@.has_entity(entity) && keys@ == old(self)@.entity(
                    entity,
                ).components,
                None => !old(self)@.has_entity(entity),
            },
    {
        proof {
            if self.wf() {
                lemma_despawn_wf(self@, entity);
            }
        }
        let i = self.find_entity(entity);
        if i >= self.entities.len() {
            return None;
        }
        let entry = self.entities.remove(i);
        let keys = entry.components.to_vec();
        let ghost start = self@.components;
        assert(self@.components == old(self)@.components);
        let mut j: usize = 0;
        while j < keys.len()
            invariant
                j <= keys@.len(),
                self.entities@ == old(self).entities@.remove(i as int),
                self.next_key == old(self).next_key,
                forall|c: u64|
                    (#[trigger] self@.components.contains_key(c))
                        ==> old(self)@.components.contains_key(c),
                WorldView::without_components(self@.components, keys@, j as nat)
                    == WorldView::without_components(start, keys@, 0),
            decreases keys@.len() - j,
        {
            let ghost before = self@.components;
            self.components.remove(&keys[j]);
            assert(self@.components =~= before.remove(keys@[j as int]));
            assert forall|c: u64| (#[trigger] self@.components.contains_key(c))
                implies old(self)@.components.contains_key(c) by {
                assert(before.contains_key(c));
            }
            j = j + 1;
        }
        proof {
            let after = old(self)@.despawn_entity(entity);
            assert(self@.entities =~= after.entities);
        }
        Some(keys)
    }

    /// Gives the component `key` the values of `replica`, which must be of
    /// its kind. Returns the mask of the properties that changed by this, or
    /// `None` if there is no such component or it is of another kind.
    pub fn update_component(&mut self, key: ReplicaKey, replica: &P) -> (r: Option<DiffMask>)
        ensures
            old(self).wf() ==> final(self).wf(),
            final(self)@ == old(self)@.update_component(key, replica@),
            match r {
                Some(mask) => old(self)@.can_update(key, replica@) && mask.wf() && spec_is_diff(
                    mask@,
                    old(self)@.components[key].replica,
                    replica@,
                ),
                None => !old(self)@.can_update(key, replica@),
            },
    {
        proof {
            if self.wf() {
                lemma_update_component_wf(self@, key, replica@);
            }
        }
        match self.components.remove(&key) {
            Some(mut slot) => {
                if slot.replica.kind().to_u16() != replica.kind().to_u16() {
                    self.components.insert(key, slot);
                    assert(self@.components =~= old(self)@.components);
                    return None;
                }
                let mask = slot.replica.diff(replica);
                slot.replica.mirror(replica);
                self.components.insert(key, slot);
                proof {
                    let after = old(self)@.update_component(key, replica@);
                    assert(self@.components =~= after.components);
                }
                Some(mask)
            },
            None => {
                assert(self@.components =~= old(self)@.components);
                None
            },
        }
    }
}

/// The entity that is found has the key that was looked for.
pub proof fn lemma_find_entity(entities: Seq<EntityView>, key: EntityKey)
    ensures
        0 <= spec_find_entity(entities, key) <= entities.len(),
        spec_find_entity(entities, key) < entities.len() ==> entities[spec_find_entity(
            entities,
            key,
        )].key == key,
        forall|i: int|
            0 <= i < spec_find_entity(entities, key) ==> (#[trigger] entities[i]).key != key,
    decreases entities.len(),
{
    if entities.len() > 0 {
        lemma_find_entity(entities.skip(1), key);
        assert forall|i: int| 0 <= i < spec_find_entity(entities, key) implies (
        #[trigger] entities[i]).key != key by {
            if i > 0 {
                assert(entities.skip(1)[i - 1] == entities[i]);
            }
        }
    }
}

/// Among entities with distinct keys, an entity is found at its place.
pub proof fn lemma_find_entity_at(world: WorldView, i: int)
    requires
        world.keys_distinct(),
        0 <= i < world.entities.len(),
    ensures
        spec_find_entity(world.entities, world.entities[i].key) == i,
        world.has_entity(world.entities[i].key),
        world.entity(world.entities[i].key) == world.entities[i],
{
    let key = world.entities[i].key;
    lemma_find_entity(world.entities, key);
    let found = spec_find_entity(world.entities, key);
    if found > i {
        assert(world.entities[i].key != key);
    }
    if found < i {
        assert(world.entities[found].key != world.entities[i].key);
    }
}

/// Where no component of a kind is found among the listed ones, none of
/// them is of that kind.
pub proof fn lemma_of_kind_none(
    store: Map<u64, ComponentView>,
    components: Seq<u64>,
    kind: u16,
    from: nat,
)
    requires
        spec_of_kind(store, components, kind, from) is None,
    ensures
        forall|j: int|
            from <= j < components.len() && store.contains_key(#[trigger] components[j])
                ==> store[components[j]].replica.kind != kind,
    decreases components.len() - from,
{
    if from < components.len() {
        lemma_of_kind_none(store, components, kind, from + 1);
    }
}

/// The components without some keys are the components whose key is not
/// one of those.
pub proof fn lemma_without_components(
    components: Map<u64, ComponentView>,
    keys: Seq<u64>,
    from: nat,
)
    requires
        from <= keys.len(),
    ensures
        ({
            let after = WorldView::without_components(components, keys, from);
            &&& forall|c: u64|
                (#[trigger] after.contains_key(c)) <==> (components.contains_key(c)
                    && !spec_among(keys, from, c))
            &&& forall|c: u64| after.contains_key(c) ==> (#[trigger] after[c]) == components[c]
        }),
    decreases keys.len() - from,
{
    if from < keys.len() {
        let next = components.remove(keys[from as int]);
        lemma_without_components(next, keys, from + 1);
        let after = WorldView::without_components(components, keys, from);
        assert(after == WorldView::without_components(next, keys, from + 1));
        assert forall|c: u64|
            (#[trigger] after.contains_key(c)) <==> (components.contains_key(c) && !spec_among(
                keys,
                from,
                c,
            )) by {
            crate::key_set::lemma_among_step(keys, from, c);
            assert(after.contains_key(c) <==> (next.contains_key(c) && !spec_among(
                keys,
                from + 1,
                c,
            )));
        }
        assert forall|c: u64| after.contains_key(c) implies (#[trigger] after[c])
            == components[c] by {
            assert(after[c] == next[c]);
        }
    } else {
        assert forall|c: u64| !spec_among(keys, from, c) by {}
    }
}

/// A new entity keeps the world sound.
pub proof fn lemma_spawn_wf(world: WorldView)
    requires
        world.wf(),
        world.next_key < u64::MAX,
    ensures
        (WorldView {
            entities: world.entities.push(
                EntityView { key: world.next_key, components: Seq::empty() },
            ),
            next_key: (world.next_key + 1) as u64,
            ..world
        }).wf(),
{
    let entry = EntityView { key: world.next_key, components: Seq::empty() };
    let after = WorldView {
        entities: world.entities.push(entry),
        next_key: (world.next_key + 1) as u64,
        ..world
    };
    assert forall|i: int, j: int| 0 <= i < j < after.entities.len() implies (
    #[trigger] after.entities[i]).key != (#[trigger] after.entities[j]).key by {
        assert(world.entities[i].key < world.next_key);
        if j < world.entities.len() {
            assert(world.entities[i].key != world.entities[j].key);
        }
    }
    assert forall|i: int| 0 <= i < after.entities.len() implies (#[trigger] after.entities[i]).key
        < after.next_key by {
        if i < world.entities.len() {
            assert(world.entities[i].key < world.next_key);
        }
    }
    assert forall|i: int| 0 <= i < after.entities.len() implies spec_distinct(
        (#[trigger] after.entities[i]).components,
    ) by {
        if i < world.entities.len() {
            assert(spec_distinct(world.entities[i].components));
        }
    }
    assert forall|i: int, j: int|
        0 <= i < after.entities.len() && 0 <= j < after.entities[i].components.len() implies {
        let c = #[trigger] after.entities[i].components[j];
        after.components.contains_key(c) && after.components[c].entity == after.entities[i].key
    } by {
        let c = world.entities[i].components[j];
        assert(world.components.contains_key(c));
    }
    assert forall|c: u64| (#[trigger] after.components.contains_key(c)) implies after.has_entity(
        after.components[c].entity,
    ) && spec_has(after.entity(after.components[c].entity).components, c) by {
        assert(world.components.contains_key(c));
        let owner = world.components[c].entity;
        let at = spec_find_entity(world.entities, owner);
        lemma_find_entity(world.entities, owner);
        assert(after.entities[at] == world.entities[at]);
        lemma_find_entity_at(after, at);
    }
    assert forall|i: int, a: int, b: int|
        0 <= i < after.entities.len() && 0 <= a < b < after.entities[i].components.len()
        implies after.components[#[trigger] after.entities[i].components[a]].replica.kind
        != after.components[#[trigger] after.entities[i].components[b]].replica.kind by {
        assert(world.components[world.entities[i].components[a]].replica.kind
            != world.components[world.entities[i].components[b]].replica.kind);
    }
}

/// A new component keeps the world sound.
pub proof fn lemma_insert_component_wf(world: WorldView, entity: EntityKey, replica: ReplicaView)
    requires
        world.wf(),
    ensures
        world.insert_component(entity, replica).wf(),
{
    let after = world.insert_component(entity, replica);
    if world.can_insert(entity, replica.kind) {
        let at = spec_find_entity(world.entities, entity);
        let key = world.next_key;
        lemma_find_entity(world.entities, entity);
        let listed = world.entities[at].components;
        lemma_of_kind_none(world.components, listed, replica.kind, 0);
        lemma_index_of(listed, key);
        assert(!spec_has(listed, key)) by {
            if listed.contains(key) {
                let j = choose|j: int| 0 <= j < listed.len() && listed[j] == key;
                assert(world.components.contains_key(world.entities[at].components[j]));
            }
        }
        assert forall|i: int, j: int| 0 <= i < j < after.entities.len() implies (
        #[trigger] after.entities[i]).key != (#[trigger] after.entities[j]).key by {
            assert(world.entities[i].key != world.entities[j].key);
        }
        assert forall|i: int| 0 <= i < after.entities.len() implies (
        #[trigger] after.entities[i]).key < after.next_key by {
            assert(world.entities[i].key < world.next_key);
        }
        assert forall|c: u64| (#[trigger] after.components.contains_key(c)) implies c
            < after.next_key by {
            if c != key {
                assert(world.components.contains_key(c));
            }
        }
        assert forall|i: int| 0 <= i < after.entities.len() implies spec_distinct(
            (#[trigger] after.entities[i]).components,
        ) by {
            assert(spec_distinct(world.entities[i].components));
            if i == at {
                lemma_with_without(listed, key, key);
                assert(after.entities[i].components == spec_with(listed, key));
            }
        }
        assert forall|i: int, j: int|
            0 <= i < after.entities.len() && 0 <= j < after.entities[i].components.len() implies {
            let c = #[trigger] after.entities[i].components[j];
            after.components.contains_key(c) && after.components[c].entity
                == after.entities[i].key
        } by {
            if i == at && j == listed.len() {
            } else {
                let c = world.entities[i].components[j];
                assert(world.components.contains_key(c));
            }
        }
        assert forall|c: u64| (#[trigger] after.components.contains_key(c))
            implies after.has_entity(after.components[c].entity) && spec_has(
            after.entity(after.components[c].entity).components,
            c,
        ) by {
            if c == key {
                lemma_find_entity_at(after, at);
                lemma_index_of(after.entities[at].components, key);
                assert(after.entities[at].components[listed.len() as int] == key);
            } else {
                assert(world.components.contains_key(c));
                let owner = world.components[c].entity;
                let place = spec_find_entity(world.entities, owner);
                lemma_find_entity(world.entities, owner);
                lemma_find_entity_at(after, place);
                if place == at {
                    lemma_with_without(listed, key, c);
                    assert(after.entities[at].components == spec_with(listed, key));
                }
            }
        }
        assert forall|i: int, a: int, b: int|
            0 <= i < after.entities.len() && 0 <= a < b < after.entities[i].components.len()
            implies after.components[#[trigger] after.entities[i].components[a]].replica.kind
            != after.components[#[trigger] after.entities[i].components[b]].replica.kind by {
            let first = after.entities[i].components[a];
            assert(world.components.contains_key(world.entities[i].components[a]));
            if i == at && b == listed.len() {
                assert(world.components.contains_key(listed[a]));
            } else {
                assert(world.components.contains_key(world.entities[i].components[b]));
                assert(world.components[world.entities[i].components[a]].replica.kind
                    != world.components[world.entities[i].components[b]].replica.kind);
            }
        }
    }
}

/// New values for a component keep the world sound.
pub proof fn lemma_update_component_wf(world: WorldView, key: ReplicaKey, replica: ReplicaView)
    requires
        world.wf(),
    ensures
        world.update_component(key, replica).wf(),
{
    let after = world.update_component(key, replica);
    if world.can_update(key, replica) {
        assert(after.entities == world.entities);
        assert forall|c: u64| (#[trigger] after.components.contains_key(c)) implies c
            < after.next_key by {
            assert(world.components.contains_key(c));
        }
        assert forall|i: int, j: int|
            0 <= i < after.entities.len() && 0 <= j < after.entities[i].components.len() implies {
            let c = #[trigger] after.entities[i].components[j];
            after.components.contains_key(c) && after.components[c].entity
                == after.entities[i].key
        } by {
            let c = world.entities[i].components[j];
            assert(world.components.contains_key(c));
        }
        assert forall|c: u64| (#[trigger] after.components.contains_key(c))
            implies after.has_entity(after.components[c].entity) && spec_has(
            after.entity(after.components[c].entity).components,
            c,
        ) by {
            assert(world.components.contains_key(c));
        }
        assert forall|i: int, a: int, b: int|
            0 <= i < after.entities.len() && 0 <= a < b < after.entities[i].components.len()
            implies after.components[#[trigger] after.entities[i].components[a]].replica.kind
            != after.components[#[trigger] after.entities[i].components[b]].replica.kind by {
            assert(world.components[world.entities[i].components[a]].replica.kind
                != world.components[world.entities[i].components[b]].replica.kind);
        }
    }
}

/// Removing a component keeps the world sound.
pub proof fn lemma_remove_component_wf(world: WorldView, key: ReplicaKey)
    requires
        world.wf(),
    ensures
        world.remove_component(key).wf(),
{
    let after = world.remove_component(key);
    if world.components.contains_key(key) {
        let owner = world.components[key].entity;
        let at = spec_find_entity(world.entities, owner);
        lemma_find_entity(world.entities, owner);
        assert(world.has_entity(owner));
        let listed = world.entities[at].components;
        assert(spec_distinct(listed));
        lemma_index_of(listed, key);
        let gone = spec_index_of(listed, key);
        let kept = spec_without(listed, key);
        assert(kept == listed.remove(gone));
        assert forall|i: int, j: int| 0 <= i < j < after.entities.len() implies (
        #[trigger] after.entities[i]).key != (#[trigger] after.entities[j]).key by {
            assert(world.entities[i].key != world.entities[j].key);
        }
        assert forall|i: int| 0 <= i < after.entities.len() implies (
        #[trigger] after.entities[i]).key < after.next_key by {
            assert(world.entities[i].key < world.next_key);
        }
        assert forall|c: u64| (#[trigger] after.components.contains_key(c)) implies c
            < after.next_key by {
            assert(world.components.contains_key(c));
        }
        assert forall|i: int| 0 <= i < after.entities.len() implies spec_distinct(
            (#[trigger] after.entities[i]).components,
        ) by {
            assert(spec_distinct(world.entities[i].components));
            if i == at {
                lemma_with_without(listed, key, key);
            }
        }
        assert forall|i: int, j: int|
            0 <= i < after.entities.len() && 0 <= j < after.entities[i].components.len() implies {
            let c = #[trigger] after.entities[i].components[j];
            after.components.contains_key(c) && after.components[c].entity
                == after.entities[i].key
        } by {
            if i == at {
                let old_j = if j < gone {
                    j
                } else {
                    j + 1
                };
                assert(kept[j] == listed[old_j]);
                assert(world.components.contains_key(world.entities[at].components[old_j]));
                assert(listed[old_j] != key) by {
                    assert(listed[gone] == key);
                }
            } else {
                let c = world.entities[i].components[j];
                assert(world.components.contains_key(c));
                assert(world.components[c].entity == world.entities[i].key);
                if c == key {
                    lemma_find_entity_at(world, i);
                }
            }
        }
        assert forall|c: u64| (#[trigger] after.components.contains_key(c))
            implies after.has_entity(after.components[c].entity) && spec_has(
            after.entity(after.components[c].entity).components,
            c,
        ) by {
            assert(world.components.contains_key(c));
            let its = world.components[c].entity;
            let place = spec_find_entity(world.entities, its);
            lemma_find_entity(world.entities, its);
            lemma_find_entity_at(after, place);
            if place == at {
                lemma_with_without(listed, key, c);
            }
        }
        assert forall|i: int, a: int, b: int|
            0 <= i < after.entities.len() && 0 <= a < b < after.entities[i].components.len()
            implies after.components[#[trigger] after.entities[i].components[a]].replica.kind
            != after.components[#[trigger] after.entities[i].components[b]].replica.kind by {
            if i == at {
                let old_a = if a < gone {
                    a
                } else {
                    a + 1
                };
                let old_b = if b < gone {
                    b
                } else {
                    b + 1
                };
                assert(kept[a] == listed[old_a]);
                assert(kept[b] == listed[old_b]);
                assert(world.components[world.entities[at].components[old_a]].replica.kind
                    != world.components[world.entities[at].components[old_b]].replica.kind);
                assert(listed[gone] == key);
            } else {
                assert(world.components[world.entities[i].components[a]].replica.kind
                    != world.components[world.entities[i].components[b]].replica.kind);
                assert(world.components.contains_key(world.entities[i].components[a]));
                assert(world.components.contains_key(world.entities[i].components[b]));
                if world.entities[i].components[a] == key || world.entities[i].components[b]
                    == key {
                    lemma_find_entity_at(world, i);
                }
            }
        }
    }
}

/// Despawning an entity keeps the world sound: its components go with it,
/// and no other.
pub proof fn lemma_despawn_wf(world: WorldView, entity: EntityKey)
    requires
        world.wf(),
    ensures
        world.despawn_entity(entity).wf(),
        !world.despawn_entity(entity).has_entity(entity),
{
    let after = world.despawn_entity(entity);
    lemma_find_entity(world.entities, entity);
    if world.has_entity(entity) {
        let at = spec_find_entity(world.entities, entity);
        let listed = world.entities[at].components;
        lemma_without_components(world.components, listed, 0);
        assert forall|i: int| 0 <= i < after.entities.len() implies (
        #[trigger] after.entities[i]) == world.entities[if i < at {
            i
        } else {
            i + 1
        }] by {}
        assert forall|i: int, j: int| 0 <= i < j < after.entities.len() implies (
        #[trigger] after.entities[i]).key != (#[trigger] after.entities[j]).key by {
            let oi = if i < at {
                i
            } else {
                i + 1
            };
            let oj = if j < at {
                j
            } else {
                j + 1
            };
            assert(world.entities[oi].key != world.entities[oj].key);
        }
        assert forall|i: int| 0 <= i < after.entities.len() implies (
        #[trigger] after.entities[i]).key < after.next_key && (#[trigger] after.entities[i]).key
            != entity by {
            let oi = if i < at {
                i
            } else {
                i + 1
            };
            assert(world.entities[oi].key < world.next_key);
            assert(world.entities[oi].key != world.entities[at].key);
        }
        lemma_find_entity(after.entities, entity);
        assert(!after.has_entity(entity)) by {
            let found = spec_find_entity(after.entities, entity);
            if found < after.entities.len() {
                assert(after.entities[found].key != entity);
            }
        }
        assert forall|c: u64| (#[trigger] after.components.contains_key(c)) implies c
            < after.next_key by {
            assert(world.components.contains_key(c));
        }
        assert forall|i: int| 0 <= i < after.entities.len() implies spec_distinct(
            (#[trigger] after.entities[i]).components,
        ) by {
            let oi = if i < at {
                i
            } else {
                i + 1
            };
            assert(spec_distinct(world.entities[oi].components));
        }
        assert forall|i: int, j: int|
            0 <= i < after.entities.len() && 0 <= j < after.entities[i].components.len() implies {
            let c = #[trigger] after.entities[i].components[j];
            after.components.contains_key(c) && after.components[c].entity
                == after.entities[i].key
        } by {
            let oi = if i < at {
                i
            } else {
                i + 1
            };
            let c = world.entities[oi].components[j];
            assert(world.components.contains_key(c));
            assert(world.components[c].entity == world.entities[oi].key);
            if spec_among(listed, 0, c) {
                let k = choose|k: int| 0 <= k < listed.len() && #[trigger] listed[k] == c;
                assert(world.components[world.entities[at].components[k]].entity
                    == world.entities[at].key);
                assert(world.entities[oi].key != world.entities[at].key);
            }
            assert(after.components.contains_key(c));
            assert(after.components[c] == world.components[c]);
        }
        assert forall|c: u64| (#[trigger] after.components.contains_key(c))
            implies after.has_entity(after.components[c].entity) && spec_has(
            after.entity(after.components[c].entity).components,
            c,
        ) by {
            assert(world.components.contains_key(c));
            assert(after.components[c] == world.components[c]);
            let its = world.components[c].entity;
            let place = spec_find_entity(world.entities, its);
            lemma_find_entity(world.entities, its);
            if place == at {
                // the component would have gone with the entity
                lemma_index_of(listed, c);
                let k = spec_index_of(listed, c);
                assert(0 <= k < listed.len() && listed[k] == c);
                assert(spec_among(listed, 0, c));
            } else {
                let np = if place < at {
                    place
                } else {
                    place - 1
                };
                assert(after.entities[np] == world.entities[place]);
                lemma_find_entity_at(after, np);
            }
        }
        assert forall|i: int, a: int, b: int|
            0 <= i < after.entities.len() && 0 <= a < b < after.entities[i].components.len()
            implies after.components[#[trigger] after.entities[i].components[a]].replica.kind
            != after.components[#[trigger] after.entities[i].components[b]].replica.kind by {
            let oi = if i < at {
                i
            } else {
                i + 1
            };
            let ca = world.entities[oi].components[a];
            let cb = world.entities[oi].components[b];
            assert(world.components[ca].replica.kind != world.components[cb].replica.kind);
            assert(after.components.contains_key(after.entities[i].components[a]));
            assert(after.components.contains_key(after.entities[i].components[b]));
        }
    }
}

} // verus!

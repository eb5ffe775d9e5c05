use vstd::prelude::*;

use std::collections::HashMap;

use crate::components::{
    Button, Component, ComponentType, ComponentTypeSet, ComponentValue, Material, Obstacle,
    PhysicsBody, Player, Sprite, Transform, Velocity,
};

verus! {

broadcast use vstd::std_specs::hash::group_hash_axioms;

/// An opaque, monotonically increasing entity identity.
#[derive(Debug, Clone, Copy, PartialEq, Eq, Structural, Hash)]
pub struct Entity(pub u64);

/// Whether no two values of the list have the same kind.
pub open spec fn distinct_kinds(values: Seq<ComponentValue>) -> bool {
    forall|i: int, j: int| 0 <= i < j < values.len() ==> values[i].kind() != values[j].kind()
}

/// The archetype kind sets once a bundle of set `x` has been spawned:
/// unchanged if `x` is there already, else `x` appended.
pub open spec fn with_set(sets: Seq<ComponentTypeSet>, x: ComponentTypeSet) -> Seq<
    ComponentTypeSet,
> {
    if sets.contains(x) {
        sets
    } else {
        sets.push(x)
    }
}

/// The archetype kind sets after spawning bundles of the given sets, in order.
pub open spec fn sets_after_spawns(
    sets: Seq<ComponentTypeSet>,
    spawned: Seq<ComponentTypeSet>,
) -> Seq<ComponentTypeSet>
    decreases spawned.len(),
{
    if spawned.len() == 0 {
        sets
    } else {
        with_set(sets_after_spawns(sets, spawned.drop_last()), spawned.last())
    }
}

/// Starting from an empty store, any sequence of spawns leaves exactly one
/// archetype per distinct kind set spawned: never more, never fewer.
pub proof fn lemma_one_archetype_per_spawned_set(spawned: Seq<ComponentTypeSet>)
    ensures
        sets_after_spawns(Seq::empty(), spawned).no_duplicates(),
        sets_after_spawns(Seq::empty(), spawned).to_set() == spawned.to_set(),
        sets_after_spawns(Seq::empty(), spawned).len() == spawned.to_set().len(),
    decreases spawned.len(),
{
    broadcast use vstd::seq_lib::group_seq_properties;
    broadcast use vstd::set::group_set_axioms;

    let result = sets_after_spawns(Seq::empty(), spawned);
    if spawned.len() == 0 {
        assert(result.to_set() =~= spawned.to_set());
    } else {
        let rest = spawned.drop_last();
        let x = spawned.last();
        lemma_one_archetype_per_spawned_set(rest);
        let prev = sets_after_spawns(Seq::empty(), rest);
        assert(spawned =~= rest.push(x));
        rest.lemma_push_to_set_commute(x);
        if prev.contains(x) {
            assert(prev.to_set().contains(x));
            assert(spawned.to_set() =~= prev.to_set());
        } else {
            prev.lemma_push_to_set_commute(x);
            assert(result == prev.push(x));
            assert(result.no_duplicates()) by {
                assert forall|i: int, j: int| 0 <= i < result.len() && 0 <= j < result.len() && i != j
                    implies result[i] != result[j] by {
                    if i < prev.len() && j < prev.len() {
                    } else if i < prev.len() {
                        assert(prev.contains(result[i]));
                    } else {
                        assert(prev.contains(result[j]));
                    }
                }
            }
        }
    }
    result.unique_seq_to_set();
}

/// A run of spawns from an empty store, each step related as `spawn`
/// ensures (`with_set`), ends with exactly one archetype per distinct kind
/// set spawned.
pub proof fn lemma_spawn_run_archetypes(worlds: Seq<InternalWorld>, sets: Seq<ComponentTypeSet>)
    requires
        worlds.len() == sets.len() + 1,
        worlds[0].archetypes@.len() == 0,
        forall|i: int|
            0 <= i < sets.len() ==> (#[trigger] worlds[i + 1]).archetype_sets() == with_set(
                worlds[i].archetype_sets(),
                sets[i],
            ),
    ensures
        worlds.last().archetypes@.len() == sets.to_set().len(),
        worlds.last().archetype_sets().no_duplicates(),
        worlds.last().archetype_sets().to_set() == sets.to_set(),
{
    lemma_spawn_prefix(worlds, sets, sets.len() as int);
    assert(sets.subrange(0, sets.len() as int) =~= sets);
    lemma_one_archetype_per_spawned_set(sets);
}

proof fn lemma_spawn_prefix(worlds: Seq<InternalWorld>, sets: Seq<ComponentTypeSet>, k: int)
    requires
        worlds.len() == sets.len() + 1,
        worlds[0].archetypes@.len() == 0,
        forall|i: int|
            0 <= i < sets.len() ==> (#[trigger] worlds[i + 1]).archetype_sets() == with_set(
                worlds[i].archetype_sets(),
                sets[i],
            ),
        0 <= k <= sets.len(),
    ensures
        worlds[k].archetype_sets() == sets_after_spawns(Seq::empty(), sets.subrange(0, k)),
    decreases k,
{
    if k == 0 {
        assert(worlds[0].archetype_sets() =~= Seq::<ComponentTypeSet>::empty());
    } else {
        lemma_spawn_prefix(worlds, sets, k - 1);
        assert(sets.subrange(0, k).drop_last() =~= sets.subrange(0, k - 1));
        let i = k - 1;
        assert(worlds[i + 1].archetype_sets() == with_set(worlds[i].archetype_sets(), sets[i]));
        assert(sets.subrange(0, k).last() == sets[i]);
    }
}

/// All entities sharing one exact set of component kinds, stored as one
/// column per kind, row `r` of every column belonging to `entity_ids[r]`.
#[derive(Debug)]
pub struct Archetype {
    pub types: ComponentTypeSet,
    pub transforms: Vec<Transform>,
    pub velocities: Vec<Velocity>,
    pub materials: Vec<Material>,
    pub players: Vec<Player>,
    pub obstacles: Vec<Obstacle>,
    pub buttons: Vec<Button>,
    pub physics_bodies: Vec<PhysicsBody>,
    pub sprites: Vec<Sprite>,
    pub entity_ids: Vec<Entity>,
    pub entity_count: usize,
}

impl Archetype {
    /// The column of kind `t`, each value tagged with its kind.
    pub open spec fn column(&self, t: ComponentType) -> Seq<ComponentValue> {
        match t {
            ComponentType::Transform => self.transforms@.map_values(
                |x: Transform| ComponentValue::Transform(x),
            ),
            ComponentType::Velocity => self.velocities@.map_values(
                |x: Velocity| ComponentValue::Velocity(x),
            ),
            ComponentType::Material => self.materials@.map_values(
                |x: Material| ComponentValue::Material(x),
            ),
            ComponentType::Player => self.players@.map_values(|x: Player| ComponentValue::Player(x)),
            ComponentType::Obstacle => self.obstacles@.map_values(
                |x: Obstacle| ComponentValue::Obstacle(x),
            ),
            ComponentType::Button => self.buttons@.map_values(|x: Button| ComponentValue::Button(x)),
            ComponentType::Physics => self.physics_bodies@.map_values(
                |x: PhysicsBody| ComponentValue::Physics(x),
            ),
            ComponentType::Sprite => self.sprites@.map_values(|x: Sprite| ComponentValue::Sprite(x)),
        }
    }

    /// Every column of a kind in the set holds one value per entity; the others are empty.
    pub open spec fn wf(&self) -> bool {
        &&& self.entity_ids@.len() == self.entity_count
        &&& forall|t: ComponentType| #[trigger]
            self.column(t).len() == if self.types.has(t) {
                self.entity_count as int
            } else {
                0
            }
    }

    /// An archetype of the given kinds without entities.
    pub open spec fn is_empty_of(&self, types: ComponentTypeSet) -> bool {
        &&& self.types == types
        &&& self.entity_count == 0
        &&& self.entity_ids@.len() == 0
        &&& forall|t: ComponentType| #[trigger] self.column(t).len() == 0
    }

    pub fn new(types: ComponentTypeSet) -> (r: Archetype)
        ensures
            r.wf(),
            r.is_empty_of(types),
    {
        Archetype {
            types,
            transforms: Vec::new(),
            velocities: Vec::new(),
            materials: Vec::new(),
            players: Vec::new(),
            obstacles: Vec::new(),
            buttons: Vec::new(),
            physics_bodies: Vec::new(),
            sprites: Vec::new(),
            entity_ids: Vec::new(),
            entity_count: 0,
        }
    }

    /// Appends one row: each value to the column of its kind, and the entity.
    pub fn push_row(&mut self, values: Vec<ComponentValue>, entity: Entity)
        requires
            old(self).wf(),
            distinct_kinds(values@),
            forall|t: ComponentType|
                old(self).types.has(t) == exists|i: int|
                    0 <= i < values@.len() && #[trigger] values@[i].kind() == t,
        ensures
            final(self).wf(),
            final(self).types == old(self).types,
            final(self).entity_count == old(self).entity_count + 1,
            final(self).entity_ids@ == old(self).entity_ids@.push(entity),
            forall|i: int|
                0 <= i < values@.len() ==> final(self).column(#[trigger] values@[i].kind())
                    == old(self).column(values@[i].kind()).push(values@[i]),
            forall|t: ComponentType|
                !old(self).types.has(t) ==> final(self).column(t) == old(self).column(t),
    {
        let ghost row_values = values@;
        let mut values = values;
        assert(values@ =~= row_values.subrange(0, values@.len() as int));
        while values.len() > 0
            invariant
                old(self).wf(),
                values@.len() <= row_values.len(),
                values@ == row_values.subrange(0, values@.len() as int),
                distinct_kinds(row_values),
                forall|t: ComponentType|
                    old(self).types.has(t) == exists|i: int|
                        0 <= i < row_values.len() && #[trigger] row_values[i].kind() == t,
                self.types == old(self).types,
                self.entity_count == old(self).entity_count,
                self.entity_ids@ == old(self).entity_ids@,
                forall|i: int|
                    values@.len() <= i < row_values.len() ==> self.column(
                        #[trigger] row_values[i].kind(),
                    ) == old(self).column(row_values[i].kind()).push(row_values[i]),
                forall|t: ComponentType|
                    (forall|i: int|
                        values@.len() <= i < row_values.len() ==> #[trigger] row_values[i].kind()
                            != t) ==> self.column(t) == old(self).column(t),
            decreases values.len(),
        {
            let ghost n = values@.len() - 1;
            let ghost vb = values@;
            let v = values.pop().unwrap();
            proof {
                assert(values@ =~= vb.subrange(0, n));
            }
            proof {
                assert(v == row_values[n]);
            }
            let ghost before = *self;
            match v {
                ComponentValue::Transform(x) => {
                    self.transforms.push(x);
                    assert(self.column(ComponentType::Transform) =~= before.column(
                        ComponentType::Transform,
                    ).push(row_values[n]));
                },
                ComponentValue::Velocity(x) => {
                    self.velocities.push(x);
                    assert(self.column(ComponentType::Velocity) =~= before.column(
                        ComponentType::Velocity,
                    ).push(row_values[n]));
                },
                ComponentValue::Material(x) => {
                    self.materials.push(x);
                    assert(self.column(ComponentType::Material) =~= before.column(
                        ComponentType::Material,
                    ).push(row_values[n]));
                },
                ComponentValue::Player(x) => {
                    self.players.push(x);
                    assert(self.column(ComponentType::Player) =~= before.column(
                        ComponentType::Player,
                    ).push(row_values[n]));
                },
                ComponentValue::Obstacle(x) => {
                    self.obstacles.push(x);
                    assert(self.column(ComponentType::Obstacle) =~= before.column(
                        ComponentType::Obstacle,
                    ).push(row_values[n]));
                },
                ComponentValue::Button(x) => {
                    self.buttons.push(x);
                    assert(self.column(ComponentType::Button) =~= before.column(
                        ComponentType::Button,
                    ).push(row_values[n]));
                },
                ComponentValue::Physics(x) => {
                    self.physics_bodies.push(x);
                    assert(self.column(ComponentType::Physics) =~= before.column(
                        ComponentType::Physics,
                    ).push(row_values[n]));
                },
                ComponentValue::Sprite(x) => {
                    self.sprites.push(x);
                    assert(self.column(ComponentType::Sprite) =~= before.column(
                        ComponentType::Sprite,
                    ).push(row_values[n]));
                },
            }
            proof {
                let k = row_values[n].kind();
                assert forall|t: ComponentType| t != k implies self.column(t) == before.column(
                    t,
                ) by {}
                assert forall|i: int| n < i < row_values.len() implies row_values[i].kind() != k by {}
                assert(values@ =~= row_values.subrange(0, values@.len() as int));
            }
        }
        self.entity_ids.push(entity);
        self.entity_count = self.entity_ids.len();
        proof {
            assert forall|t: ComponentType| #[trigger]
                self.column(t).len() == if self.types.has(t) {
                    self.entity_count as int
                } else {
                    0
                } by {
                if self.types.has(t) {
                    let i = choose|i: int| 0 <= i < row_values.len() && #[trigger] row_values[i].kind() == t;
                    assert(self.column(row_values[i].kind()) == old(self).column(
                        row_values[i].kind(),
                    ).push(row_values[i]));
                    assert(old(self).column(t).len() == old(self).entity_count);
                } else {
                    assert forall|i: int| 0 <= i < row_values.len() implies #[trigger] row_values[i].kind() != t by {}
                    assert(self.column(t) == old(self).column(t));
                    assert(old(self).column(t).len() == 0);
                }
            }
        }
    }

    /// Same kinds, same entities in the same rows, and columns of the same lengths.
    pub open spec fn same_layout(before: Archetype, after: Archetype) -> bool {
        &&& after.types == before.types
        &&& after.entity_ids@ == before.entity_ids@
        &&& after.entity_count == before.entity_count
        &&& after.transforms@.len() == before.transforms@.len()
        &&& after.velocities@.len() == before.velocities@.len()
        &&& after.materials@.len() == before.materials@.len()
        &&& after.players@.len() == before.players@.len()
        &&& after.obstacles@.len() == before.obstacles@.len()
        &&& after.buttons@.len() == before.buttons@.len()
        &&& after.physics_bodies@.len() == before.physics_bodies@.len()
        &&& after.sprites@.len() == before.sprites@.len()
    }

    /// Drops every row, keeping the set of kinds.
    pub fn clear(&mut self)
        requires
            old(self).wf(),
        ensures
            final(self).wf(),
            final(self).is_empty_of(old(self).types),
    {
        self.transforms.clear();
        self.velocities.clear();
        self.materials.clear();
        self.players.clear();
        self.obstacles.clear();
        self.buttons.clear();
        self.physics_bodies.clear();
        self.sprites.clear();
        self.entity_ids.clear();
        self.entity_count = 0;
    }
}


/// A fixed-arity group of components spawned together as one entity.
pub trait ComponentBundle: Sized {
    /// The kinds of the bundle's values, in field order.
    spec fn spec_types() -> Seq<ComponentType>;

    fn get_component_types() -> (r: Vec<ComponentType>)
        ensures
            r@ == Self::spec_types(),
    ;

    /// The bundle's values, in field order.
    spec fn spec_values(self) -> Seq<ComponentValue>;

    fn into_values(self) -> (r: Vec<ComponentValue>)
        ensures
            r@ == self.spec_values(),
            r@.len() == Self::spec_types().len(),
            forall|i: int| 0 <= i < r@.len() ==> #[trigger] r@[i].kind() == Self::spec_types()[i],
    ;
}

impl<T: Component> ComponentBundle for (T,) {
    open spec fn spec_types() -> Seq<ComponentType> {
        seq![T::spec_component_type()]
    }

    open spec fn spec_values(self) -> Seq<ComponentValue> {
        seq![self.0.spec_value()]
    }

    fn get_component_types() -> (r: Vec<ComponentType>) {
        let mut r = Vec::new();
        r.push(T::component_type());
        assert(r@ =~= Self::spec_types());
        r
    }

    fn into_values(self) -> (r: Vec<ComponentValue>) {
        let mut r = Vec::new();
        r.push(self.0.into_value());
        assert(r@ =~= self.spec_values());
        r
    }
}

impl<T: Component, U: Component> ComponentBundle for (T, U) {
    open spec fn spec_types() -> Seq<ComponentType> {
        seq![T::spec_component_type(), U::spec_component_type()]
    }

    open spec fn spec_values(self) -> Seq<ComponentValue> {
        seq![self.0.spec_value(), self.1.spec_value()]
    }

    fn get_component_types() -> (r: Vec<ComponentType>) {
        let mut r = Vec::new();
        r.push(T::component_type());
        r.push(U::component_type());
        assert(r@ =~= Self::spec_types());
        r
    }

    fn into_values(self) -> (r: Vec<ComponentValue>) {
        let mut r = Vec::new();
        r.push(self.0.into_value());
        r.push(self.1.into_value());
        assert(r@ =~= self.spec_values());
        r
    }
}

impl<T: Component, U: Component, V: Component> ComponentBundle for (T, U, V) {
    open spec fn spec_types() -> Seq<ComponentType> {
        seq![T::spec_component_type(), U::spec_component_type(), V::spec_component_type()]
    }

    open spec fn spec_values(self) -> Seq<ComponentValue> {
        seq![self.0.spec_value(), self.1.spec_value(), self.2.spec_value()]
    }

    fn get_component_types() -> (r: Vec<ComponentType>) {
        let mut r = Vec::new();
        r.push(T::component_type());
        r.push(U::component_type());
        r.push(V::component_type());
        assert(r@ =~= Self::spec_types());
        r
    }

    fn into_values(self) -> (r: Vec<ComponentValue>) {
        let mut r = Vec::new();
        r.push(self.0.into_value());
        r.push(self.1.into_value());
        r.push(self.2.into_value());
        assert(r@ =~= self.spec_values());
        r
    }
}

impl<T: Component, U: Component, V: Component, W: Component> ComponentBundle for (T, U, V, W) {
    open spec fn spec_types() -> Seq<ComponentType> {
        seq![T::spec_component_type(), U::spec_component_type(), V::spec_component_type(), W::spec_component_type()]
    }

    open spec fn spec_values(self) -> Seq<ComponentValue> {
        seq![self.0.spec_value(), self.1.spec_value(), self.2.spec_value(), self.3.spec_value()]
    }

    fn get_component_types() -> (r: Vec<ComponentType>) {
        let mut r = Vec::new();
        r.push(T::component_type());
        r.push(U::component_type());
        r.push(V::component_type());
        r.push(W::component_type());
        assert(r@ =~= Self::spec_types());
        r
    }

    fn into_values(self) -> (r: Vec<ComponentValue>) {
        let mut r = Vec::new();
        r.push(self.0.into_value());
        r.push(self.1.into_value());
        r.push(self.2.into_value());
        r.push(self.3.into_value());
        assert(r@ =~= self.spec_values());
        r
    }
}

impl<T: Component, U: Component, V: Component, W: Component, X: Component> ComponentBundle for (T, U, V, W, X) {
    open spec fn spec_types() -> Seq<ComponentType> {
        seq![T::spec_component_type(), U::spec_component_type(), V::spec_component_type(), W::spec_component_type(), X::spec_component_type()]
    }

    open spec fn spec_values(self) -> Seq<ComponentValue> {
        seq![self.0.spec_value(), self.1.spec_value(), self.2.spec_value(), self.3.spec_value(), self.4.spec_value()]
    }

    fn get_component_types() -> (r: Vec<ComponentType>) {
        let mut r = Vec::new();
        r.push(T::component_type());
        r.push(U::component_type());
        r.push(V::component_type());
        r.push(W::component_type());
        r.push(X::component_type());
        assert(r@ =~= Self::spec_types());
        r
    }

    fn into_values(self) -> (r: Vec<ComponentValue>) {
        let mut r = Vec::new();
        r.push(self.0.into_value());
        r.push(self.1.into_value());
        r.push(self.2.into_value());
        r.push(self.3.into_value());
        r.push(self.4.into_value());
        assert(r@ =~= self.spec_values());
        r
    }
}

impl<T: Component, U: Component, V: Component, W: Component, X: Component, Y: Component> ComponentBundle for (T, U, V, W, X, Y) {
    open spec fn spec_types() -> Seq<ComponentType> {
        seq![T::spec_component_type(), U::spec_component_type(), V::spec_component_type(), W::spec_component_type(), X::spec_component_type(), Y::spec_component_type()]
    }

    open spec fn spec_values(self) -> Seq<ComponentValue> {
        seq![self.0.spec_value(), self.1.spec_value(), self.2.spec_value(), self.3.spec_value(), self.4.spec_value(), self.5.spec_value()]
    }

    fn get_component_types() -> (r: Vec<ComponentType>) {
        let mut r = Vec::new();
        r.push(T::component_type());
        r.push(U::component_type());
        r.push(V::component_type());
        r.push(W::component_type());
        r.push(X::component_type());
        r.push(Y::component_type());
        assert(r@ =~= Self::spec_types());
        r
    }

    fn into_values(self) -> (r: Vec<ComponentValue>) {
        let mut r = Vec::new();
        r.push(self.0.into_value());
        r.push(self.1.into_value());
        r.push(self.2.into_value());
        r.push(self.3.into_value());
        r.push(self.4.into_value());
        r.push(self.5.into_value());
        assert(r@ =~= self.spec_values());
        r
    }
}

/// The entity store: archetypes with unique kind sets, and an index from
/// each live entity to its archetype and row.
#[derive(Debug)]
pub struct InternalWorld {
    pub entities: HashMap<u64, (usize, usize)>,
    pub archetypes: Vec<Archetype>,
    pub next_entity: u64,
}

impl InternalWorld {
    pub open spec fn row_entity(&self, a: int, r: int) -> Entity {
        self.archetypes@[a].entity_ids@[r]
    }

    pub open spec fn wf(&self) -> bool {
        &&& forall|a: int| 0 <= a < self.archetypes@.len() ==> #[trigger] self.archetypes@[a].wf()
        &&& forall|a: int, b: int|
            0 <= a < self.archetypes@.len() && 0 <= b < self.archetypes@.len() && a != b
                ==> #[trigger] self.archetypes@[a].types != #[trigger] self.archetypes@[b].types
        &&& forall|k: u64| #[trigger]
            self.entities@.contains_key(k) ==> {
                let (a, r) = self.entities@[k];
                &&& k < self.next_entity
                &&& a < self.archetypes@.len()
                &&& r < self.archetypes@[a as int].entity_count
                &&& self.row_entity(a as int, r as int) == Entity(k)
            }
        &&& forall|a: int, r: int|
            0 <= a < self.archetypes@.len() && 0 <= r < self.archetypes@[a].entity_count
                ==> self.entities@.contains_key(#[trigger] self.row_entity(a, r).0)
                && self.entities@[self.row_entity(a, r).0] == (a as usize, r as usize)
    }

    /// Where the entity is stored, if it is live.
    pub open spec fn location(&self, e: Entity) -> Option<(usize, usize)> {
        if self.entities@.contains_key(e.0) {
            Some(self.entities@[e.0])
        } else {
            None
        }
    }

    /// The archetype that the index records for the entity.
    pub open spec fn archetype_index_of(&self, e: Entity) -> int {
        self.entities@[e.0].0 as int
    }

    /// The kind set of the archetype the entity is stored in.
    pub open spec fn kinds_of(&self, e: Entity) -> ComponentTypeSet {
        self.archetypes@[self.entities@[e.0].0 as int].types
    }

    /// The entity's component of kind `t`, tagged with its kind.
    pub open spec fn component_of(&self, e: Entity, t: ComponentType) -> ComponentValue {
        let (a, r) = self.entities@[e.0];
        self.archetypes@[a as int].column(t)[r as int]
    }

    /// `e` was just spawned: it is new, every other entity keeps its place,
    /// and only the archetype it went to changed, by one row at its end.
    pub open spec fn spawned(before: InternalWorld, after: InternalWorld, e: Entity) -> bool {
        &&& !before.entities@.contains_key(e.0)
        &&& after.entities@.contains_key(e.0)
        &&& after.archetypes@.len() >= before.archetypes@.len()
        &&& forall|k: u64|
            k != e.0 ==> (#[trigger] after.entities@.contains_key(k) == before.entities@.contains_key(k))
                && (after.entities@.contains_key(k) ==> after.entities@[k] == before.entities@[k])
        &&& ({
            let a = after.entities@[e.0].0 as int;
            &&& a <= before.archetypes@.len()
            &&& a < before.archetypes@.len() ==> after.archetypes@.len() == before.archetypes@.len()
                && after.archetypes@[a].entity_count == before.archetypes@[a].entity_count + 1
                && after.entities@[e.0].1 == before.archetypes@[a].entity_count
            &&& a == before.archetypes@.len() ==> after.archetypes@.len() == before.archetypes@.len() + 1
                && after.archetypes@[a].entity_count == 1 && after.entities@[e.0].1 == 0
            &&& forall|b: int|
                0 <= b < before.archetypes@.len() && b != a ==> #[trigger] after.archetypes@[b]
                    == before.archetypes@[b]
            &&& a < before.archetypes@.len() ==> after.archetypes@[a].types == before.archetypes@[a].types
                && forall|t: ComponentType| #![auto]
                if after.archetypes@[a].types.has(t) {
                    after.archetypes@[a].column(t).drop_last() == before.archetypes@[a].column(t)
                } else {
                    after.archetypes@[a].column(t) == before.archetypes@[a].column(t)
                }
        })
    }

    /// Spawning leaves every other live entity where it was, with the same
    /// kinds and component values.
    pub proof fn lemma_spawn_keeps(before: InternalWorld, after: InternalWorld, e: Entity, x: Entity)
        requires
            before.wf(),
            after.wf(),
            Self::spawned(before, after, e),
            before.entities@.contains_key(x.0),
        ensures
            after.entities@.contains_key(x.0),
            after.location(x) == before.location(x),
            after.kinds_of(x) == before.kinds_of(x),
            forall|t: ComponentType| #[trigger] before.kinds_of(x).has(t) ==> after.component_of(x, t) == before.component_of(x, t),
    {
        assert(x.0 != e.0);
        assert(after.entities@.contains_key(x.0) == before.entities@.contains_key(x.0));
        let (b, r) = before.entities@[x.0];
        let a = after.entities@[e.0].0 as int;
        assert(before.archetypes@[b as int].wf());
        assert forall|t: ComponentType| #[trigger] before.kinds_of(x).has(t) implies after.component_of(x, t) == before.component_of(x, t) by {
            if b as int == a {
                let c0 = before.archetypes@[a].column(t);
                let c1 = after.archetypes@[a].column(t);
                assert(c0.len() == before.archetypes@[a].entity_count);
                assert(after.archetypes@[a].types.has(t));
                assert(after.archetypes@[a].wf());
                assert(c1.len() == after.archetypes@[a].entity_count);
                assert(c1.drop_last() == c0);
                assert(r < c0.len());
                assert(c1.drop_last()[r as int] == c1[r as int]);
            }
        }
    }

    /// The kind sets of the archetypes, in creation order.
    pub open spec fn archetype_sets(&self) -> Seq<ComponentTypeSet> {
        self.archetypes@.map_values(|a: Archetype| a.types)
    }

    pub fn new() -> (r: InternalWorld)
        ensures
            r.wf(),
            r.archetypes@.len() == 0,
            r.entities@.is_empty(),
            r.next_entity == 0,
    {
        InternalWorld { entities: HashMap::new(), archetypes: Vec::new(), next_entity: 0 }
    }

    /// Rewriting component values in place, without changing any
    /// archetype's kinds, rows or column lengths, keeps the store well formed.
    pub proof fn lemma_same_layout(before: InternalWorld, after: InternalWorld)
        requires
            before.wf(),
            after.entities@ == before.entities@,
            after.next_entity == before.next_entity,
            after.archetypes@.len() == before.archetypes@.len(),
            forall|a: int|
                0 <= a < before.archetypes@.len() ==> Archetype::same_layout(
                    #[trigger] before.archetypes@[a],
                    after.archetypes@[a],
                ),
        ensures
            after.wf(),
            after.archetype_sets() == before.archetype_sets(),
    {
        assert forall|a: int| 0 <= a < after.archetypes@.len() implies #[trigger] after.archetypes@[a].wf() by {
            assert(Archetype::same_layout(before.archetypes@[a], after.archetypes@[a]));
            assert(before.archetypes@[a].wf());
            assert forall|t: ComponentType| #[trigger] after.archetypes@[a].column(t).len()
                == before.archetypes@[a].column(t).len() by {}
        }
        assert forall|a: int, b: int|
            0 <= a < after.archetypes@.len() && 0 <= b < after.archetypes@.len() && a != b
            implies #[trigger] after.archetypes@[a].types != #[trigger] after.archetypes@[b].types by {
            assert(Archetype::same_layout(before.archetypes@[a], after.archetypes@[a]));
            assert(Archetype::same_layout(before.archetypes@[b], after.archetypes@[b]));
        }
        assert forall|k: u64| #[trigger] after.entities@.contains_key(k) implies {
            let (a, r) = after.entities@[k];
            &&& k < after.next_entity
            &&& a < after.archetypes@.len()
            &&& r < after.archetypes@[a as int].entity_count
            &&& after.row_entity(a as int, r as int) == Entity(k)
        } by {
            let (a, r) = before.entities@[k];
            assert(Archetype::same_layout(before.archetypes@[a as int], after.archetypes@[a as int]));
        }
        assert forall|a: int, r: int|
            0 <= a < after.archetypes@.len() && 0 <= r < after.archetypes@[a].entity_count
            implies after.entities@.contains_key(#[trigger] after.row_entity(a, r).0)
            && after.entities@[after.row_entity(a, r).0] == (a as usize, r as usize) by {
            assert(Archetype::same_layout(before.archetypes@[a], after.archetypes@[a]));
            assert(before.row_entity(a, r) == after.row_entity(a, r));
        }
        assert(after.archetype_sets() =~= before.archetype_sets()) by {
            assert forall|a: int| 0 <= a < after.archetypes@.len() implies after.archetype_sets()[a]
                == before.archetype_sets()[a] by {
                assert(Archetype::same_layout(before.archetypes@[a], after.archetypes@[a]));
            }
        }
    }

    /// Looks an entity up.
    pub fn lookup(&self, e: Entity) -> (r: Option<(usize, usize)>)
        ensures
            r == self.location(e),
    {
        match self.entities.get(&e.0) {
            Some(loc) => Some(*loc),
            None => None,
        }
    }

    /// The index of the archetype whose kind set is exactly `types`, if any.
    pub fn find_archetype(&self, types: ComponentTypeSet) -> (r: Option<usize>)
        ensures
            match r {
                Some(i) => i < self.archetypes@.len() && self.archetypes@[i as int].types == types
                    && self.archetype_sets().contains(types),
                None => !self.archetype_sets().contains(types),
            },
    {
        let mut i: usize = 0;
        while i < self.archetypes.len()
            invariant
                i <= self.archetypes@.len(),
                forall|j: int| 0 <= j < i ==> self.archetypes@[j].types != types,
            decreases self.archetypes.len() - i,
        {
            if self.archetypes[i].types == types {
                proof {
                    assert(self.archetype_sets()[i as int] == types);
                }
                return Some(i);
            }
            i += 1;
        }
        proof {
            assert forall|j: int| 0 <= j < self.archetype_sets().len() implies self.archetype_sets()[j]
                != types by {}
        }
        None
    }

    /// The index of the archetype whose kind set is exactly `types`,
    /// created empty at the end if there is none.
    pub fn get_or_create_archetype(&mut self, types: ComponentTypeSet) -> (idx: usize)
        requires
            old(self).wf(),
        ensures
            final(self).wf(),
            final(self).entities@ == old(self).entities@,
            final(self).next_entity == old(self).next_entity,
            idx < final(self).archetypes@.len(),
            final(self).archetypes@[idx as int].types == types,
            old(self).archetype_sets().contains(types) ==> final(self).archetypes@ == old(
                self,
            ).archetypes@,
            !old(self).archetype_sets().contains(types) ==> {
                &&& idx == old(self).archetypes@.len()
                &&& final(self).archetypes@.len() == old(self).archetypes@.len() + 1
                &&& final(self).archetypes@.subrange(0, idx as int) == old(self).archetypes@
                &&& final(self).archetypes@[idx as int].is_empty_of(types)
                &&& final(self).archetypes@[idx as int].wf()
            },
            final(self).archetype_sets() == with_set(old(self).archetype_sets(), types),
    {
        let i = match self.find_archetype(types) {
            Some(i) => {
                return i;
            },
            None => self.archetypes.len(),
        };
        proof {
            assert forall|j: int| 0 <= j < self.archetype_sets().len() implies self.archetype_sets()[j]
                != types by {}
        }
        let ghost before = *self;
        self.archetypes.push(Archetype::new(types));
        proof {
            assert(self.archetypes@.subrange(0, i as int) =~= before.archetypes@);
            assert(self.archetype_sets() =~= before.archetype_sets().push(types));
            assert forall|a: int| 0 <= a < self.archetypes@.len() implies #[trigger] self.archetypes@[a].wf() by {
                if a < i {
                    assert(self.archetypes@[a] == before.archetypes@[a]);
                }
            }
            assert forall|a: int, b: int|
                0 <= a < self.archetypes@.len() && 0 <= b < self.archetypes@.len() && a != b
                implies #[trigger] self.archetypes@[a].types != #[trigger] self.archetypes@[b].types by {
                if a < i && b < i {
                    assert(self.archetypes@[a] == before.archetypes@[a]);
                    assert(self.archetypes@[b] == before.archetypes@[b]);
                } else if a < i {
                    assert(before.archetype_sets()[a] == before.archetypes@[a].types);
                } else {
                    assert(before.archetype_sets()[b] == before.archetypes@[b].types);
                }
            }
            assert forall|k: u64| #[trigger] self.entities@.contains_key(k) implies {
                let (a, r) = self.entities@[k];
                &&& k < self.next_entity
                &&& a < self.archetypes@.len()
                &&& r < self.archetypes@[a as int].entity_count
                &&& self.row_entity(a as int, r as int) == Entity(k)
            } by {
                let (a, r) = before.entities@[k];
                assert(self.archetypes@[a as int] == before.archetypes@[a as int]);
            }
            assert forall|a: int, r: int|
                0 <= a < self.archetypes@.len() && 0 <= r < self.archetypes@[a].entity_count
                implies self.entities@.contains_key(#[trigger] self.row_entity(a, r).0)
                && self.entities@[self.row_entity(a, r).0] == (a as usize, r as usize) by {
                assert(a < i);
                assert(self.row_entity(a, r) == before.row_entity(a, r));
            }
        }
        i
    }

    /// What clearing kind `t` leaves: every archetype whose set holds `t` is
    /// emptied, together with the index entries of its entities; the rest is kept.
    pub open spec fn cleared_of(old_world: InternalWorld, new_world: InternalWorld, t: ComponentType) -> bool {
        &&& new_world.next_entity == old_world.next_entity
        &&& new_world.archetypes@.len() == old_world.archetypes@.len()
        &&& forall|a: int|
            0 <= a < old_world.archetypes@.len() ==> {
                let before = #[trigger] old_world.archetypes@[a];
                let after = new_world.archetypes@[a];
                if before.types.has(t) {
                    after.is_empty_of(before.types)
                } else {
                    after == before
                }
            }
        &&& forall|k: u64| #[trigger]
            new_world.entities@.contains_key(k) == (old_world.entities@.contains_key(k)
                && !old_world.archetypes@[old_world.entities@[k].0 as int].types.has(t))
        &&& forall|k: u64| #[trigger]
            new_world.entities@.contains_key(k) ==> new_world.entities@[k]
                == old_world.entities@[k]
    }

    /// Every live entity of `after` is new (its id is at least
    /// `before.next_entity`) or was live in `before` with the same kinds.
    pub open spec fn grew_from(before: InternalWorld, after: InternalWorld) -> bool {
        forall|k: u64| #[trigger]
            after.entities@.contains_key(k) ==> k >= before.next_entity || (
            before.entities@.contains_key(k) && after.kinds_of(Entity(k)) == before.kinds_of(Entity(k)))
    }

    /// After clearing `t`, every live entity was live before, keeps its
    /// kinds, and has no component of kind `t`.
    pub proof fn lemma_cleared_keeps_kinds(w0: InternalWorld, w1: InternalWorld, t: ComponentType)
        requires
            Self::cleared_of(w0, w1, t),
            w0.wf(),
        ensures
            forall|k: u64| #[trigger] w1.entities@.contains_key(k) ==> w0.entities@.contains_key(k)
                && w1.kinds_of(Entity(k)) == w0.kinds_of(Entity(k)) && !w1.kinds_of(Entity(k)).has(t),
            Self::grew_from(w0, w1),
    {
        assert forall|k: u64| #[trigger] w1.entities@.contains_key(k) implies w0.entities@.contains_key(k)
            && w1.kinds_of(Entity(k)) == w0.kinds_of(Entity(k)) && !w1.kinds_of(Entity(k)).has(t) by {
            let a = w0.entities@[k].0 as int;
            assert(w1.entities@[k] == w0.entities@[k]);
            assert(a < w0.archetypes@.len());
            let before = w0.archetypes@[a];
            assert(!before.types.has(t));
        }
    }

    /// Spawning a new entity keeps the growth relation.
    pub proof fn lemma_spawn_grew(w0: InternalWorld, w1: InternalWorld, e: Entity)
        requires
            w0.wf(),
            w1.wf(),
            Self::spawned(w0, w1, e),
            e.0 == w0.next_entity,
        ensures
            Self::grew_from(w0, w1),
    {
        assert forall|k: u64| #[trigger] w1.entities@.contains_key(k) implies k >= w0.next_entity || (
            w0.entities@.contains_key(k) && w1.kinds_of(Entity(k)) == w0.kinds_of(Entity(k))) by {
            if k != e.0 {
                assert(w0.entities@.contains_key(k));
                Self::lemma_spawn_keeps(w0, w1, e, Entity(k));
            }
        }
    }

    pub proof fn lemma_grew_trans(a: InternalWorld, b: InternalWorld, c: InternalWorld)
        requires
            Self::grew_from(a, b),
            Self::grew_from(b, c),
            a.next_entity <= b.next_entity,
        ensures
            Self::grew_from(a, c),
    {
        assert forall|k: u64| #[trigger] c.entities@.contains_key(k) implies k >= a.next_entity || (
            a.entities@.contains_key(k) && c.kinds_of(Entity(k)) == a.kinds_of(Entity(k))) by {
            if k < b.next_entity {
                assert(b.entities@.contains_key(k));
            }
        }
    }

    /// Removes every entity of every archetype whose set holds `t`, and
    /// empties those archetypes. Clearing works on whole archetypes.
    pub fn clear_entities_of_component(&mut self, component_type: ComponentType)
        requires
            old(self).wf(),
        ensures
            final(self).wf(),
            Self::cleared_of(*old(self), *final(self), component_type),
            final(self).archetype_sets() == old(self).archetype_sets(),
    {
        let ghost start = *self;
        let t = component_type;
        let mut a: usize = 0;
        while a < self.archetypes.len()
            invariant
                start.wf(),
                a <= self.archetypes@.len(),
                self.archetypes@ == start.archetypes@,
                self.next_entity == start.next_entity,
                forall|k: u64| #[trigger]
                    self.entities@.contains_key(k) == (start.entities@.contains_key(k) && !(
                    start.entities@[k].0 < a && start.archetypes@[start.entities@[k].0 as int].types.has(t))),
                forall|k: u64| #[trigger]
                    self.entities@.contains_key(k) ==> self.entities@[k] == start.entities@[k],
            decreases self.archetypes.len() - a,
        {
            if self.archetypes[a].types.contains(t) {
                let count = self.archetypes[a].entity_count;
                let mut r: usize = 0;
                while r < count
                    invariant
                        start.wf(),
                        a < self.archetypes@.len(),
                        start.archetypes@[a as int].types.has(t),
                        count == start.archetypes@[a as int].entity_count,
                        r <= count,
                        self.archetypes@ == start.archetypes@,
                        self.next_entity == start.next_entity,
                        forall|k: u64| #[trigger]
                            self.entities@.contains_key(k) == (start.entities@.contains_key(k) && !(
                            start.entities@[k].0 < a && start.archetypes@[start.entities@[k].0 as int].types.has(t))
                            && !(start.entities@[k].0 == a && start.entities@[k].1 < r)),
                        forall|k: u64| #[trigger]
                            self.entities@.contains_key(k) ==> self.entities@[k] == start.entities@[k],
                    decreases count - r,
                {
                    assert(start.archetypes@[a as int].wf());
                    let id = self.archetypes[a].entity_ids[r].0;
                    proof {
                        assert(id == start.row_entity(a as int, r as int).0);
                        assert(start.entities@.contains_key(id));
                        assert(start.entities@[id] == (a, r));
                    }
                    self.entities.remove(&id);
                    proof {
                        assert forall|k: u64| #[trigger]
                            self.entities@.contains_key(k) == (start.entities@.contains_key(k) && !(
                            start.entities@[k].0 < a && start.archetypes@[start.entities@[k].0 as int].types.has(t))
                            && !(start.entities@[k].0 == a && start.entities@[k].1 < r + 1)) by {
                            if start.entities@.contains_key(k) && start.entities@[k] == (a, r) {
                                let (b, q) = start.entities@[k];
                                assert(start.row_entity(b as int, q as int) == Entity(k));
                            }
                        }
                    }
                    r += 1;
                }
            }
            a += 1;
        }
        let ghost mid = *self;
        let mut a: usize = 0;
        while a < self.archetypes.len()
            invariant
                start.wf(),
                a <= self.archetypes@.len(),
                self.archetypes@.len() == start.archetypes@.len(),
                self.entities@ == mid.entities@,
                self.next_entity == start.next_entity,
                forall|b: int|
                    0 <= b < self.archetypes@.len() ==> {
                        let before = #[trigger] start.archetypes@[b];
                        let after = self.archetypes@[b];
                        if b < a && before.types.has(t) {
                            after.is_empty_of(before.types) && after.wf()
                        } else {
                            after == before
                        }
                    },
            decreases self.archetypes.len() - a,
        {
            if self.archetypes[a].types.contains(t) {
                assert(start.archetypes@[a as int].wf());
                self.archetypes[a].clear();
            }
            a += 1;
        }
        proof {
            assert forall|b: int| 0 <= b < self.archetypes@.len() implies #[trigger] self.archetypes@[b].wf() by {
                assert(start.archetypes@[b].wf());
            }
            assert forall|b: int, c: int|
                0 <= b < self.archetypes@.len() && 0 <= c < self.archetypes@.len() && b != c
                implies #[trigger] self.archetypes@[b].types != #[trigger] self.archetypes@[c].types by {
                assert(start.archetypes@[b].types == self.archetypes@[b].types);
                assert(start.archetypes@[c].types == self.archetypes@[c].types);
            }
            assert forall|k: u64| #[trigger] self.entities@.contains_key(k) implies {
                let (b, r) = self.entities@[k];
                &&& k < self.next_entity
                &&& b < self.archetypes@.len()
                &&& r < self.archetypes@[b as int].entity_count
                &&& self.row_entity(b as int, r as int) == Entity(k)
            } by {
                let (b, r) = start.entities@[k];
                assert(start.archetypes@[b as int] == self.archetypes@[b as int]);
            }
            assert forall|b: int, r: int|
                0 <= b < self.archetypes@.len() && 0 <= r < self.archetypes@[b].entity_count
                implies self.entities@.contains_key(#[trigger] self.row_entity(b, r).0)
                && self.entities@[self.row_entity(b, r).0] == (b as usize, r as usize) by {
                if start.archetypes@[b].types.has(t) {
                    assert(self.archetypes@[b].entity_count == 0);
                } else {
                    assert(start.archetypes@[b] == self.archetypes@[b]);
                    assert(start.row_entity(b, r) == self.row_entity(b, r));
                    let k = start.row_entity(b, r).0;
                    assert(start.entities@.contains_key(k));
                    assert(start.entities@[k] == (b as usize, r as usize));
                    assert(mid.entities@.contains_key(k));
                }
            }
            assert(self.archetype_sets() =~= start.archetype_sets());
        }
    }

    /// Spawns one entity with the bundle's components and returns it.
    pub fn spawn<B: ComponentBundle>(&mut self, bundle: B) -> (e: Entity)
        requires
            old(self).wf(),
            B::spec_types().no_duplicates(),
            old(self).next_entity < u64::MAX,
        ensures
            final(self).wf(),
            e == Entity(old(self).next_entity),
            final(self).next_entity == old(self).next_entity + 1,
            final(self).archetype_sets() == with_set(
                old(self).archetype_sets(),
                ComponentTypeSet::spec_of(B::spec_types()),
            ),
            final(self).location(e) is Some,
            ({
                let (a, r) = final(self).location(e)->0;
                &&& final(self).archetypes@[a as int].types == ComponentTypeSet::spec_of(
                    B::spec_types(),
                )
                &&& final(self).archetypes@[a as int].entity_count == r + 1
                &&& a <= old(self).archetypes@.len()
                &&& a < old(self).archetypes@.len() ==> r == old(self).archetypes@[a as int].entity_count
                &&& a == old(self).archetypes@.len() ==> r == 0
                &&& a < old(self).archetypes@.len() ==> forall|t: ComponentType|
                    if final(self).archetypes@[a as int].types.has(t) {
                        (#[trigger] final(self).archetypes@[a as int].column(t)).drop_last()
                            == old(self).archetypes@[a as int].column(t)
                    } else {
                        final(self).archetypes@[a as int].column(t) == old(self).archetypes@[a as int].column(t)
                    }
                &&& forall|b: int|
                    0 <= b < old(self).archetypes@.len() && b != a ==> #[trigger] final(self).archetypes@[b]
                        == old(self).archetypes@[b]
            }),
            final(self).kinds_of(e) == ComponentTypeSet::spec_of(B::spec_types()),
            Self::spawned(*old(self), *final(self), e),
            forall|i: int|
                0 <= i < B::spec_types().len() ==> final(self).component_of(e, #[trigger] B::spec_types()[i])
                    == bundle.spec_values()[i],
            forall|k: u64|
                k != e.0 ==> (#[trigger] final(self).entities@.contains_key(k) == old(
                    self,
                ).entities@.contains_key(k)) && (final(self).entities@.contains_key(k)
                    ==> final(self).entities@[k] == old(self).entities@[k]),
    {
        let kinds = B::get_component_types();
        let types = ComponentTypeSet::from_types(&kinds);
        let idx = self.get_or_create_archetype(types);
        let values = bundle.into_values();
        let ghost mid = *self;
        let entity = Entity(self.next_entity);
        proof {
            assert forall|i: int, j: int| 0 <= i < j < values@.len() implies values@[i].kind()
                != values@[j].kind() by {
                assert(values@[i].kind() == B::spec_types()[i]);
                assert(values@[j].kind() == B::spec_types()[j]);
            }
            assert forall|t: ComponentType|
                mid.archetypes@[idx as int].types.has(t) == exists|i: int|
                    0 <= i < values@.len() && #[trigger] values@[i].kind() == t by {
                if mid.archetypes@[idx as int].types.has(t) {
                    let i = choose|i: int| 0 <= i < kinds@.len() && kinds@[i] == t;
                    assert(values@[i].kind() == t);
                }
            }
            assert(mid.archetypes@[idx as int].wf());
        }
        let row = self.archetypes[idx].entity_count;
        let ghost vals = values@;
        self.archetypes[idx].push_row(values, entity);
        self.entities.insert(entity.0, (idx, row));
        self.next_entity = self.next_entity + 1;
        proof {
            assert(!mid.entities@.contains_key(entity.0));
            assert(self.archetype_sets() =~= mid.archetype_sets());
            assert forall|a: int| 0 <= a < self.archetypes@.len() implies #[trigger] self.archetypes@[a].wf() by {
                if a != idx {
                    assert(self.archetypes@[a] == mid.archetypes@[a]);
                }
            }
            assert forall|a: int, b: int|
                0 <= a < self.archetypes@.len() && 0 <= b < self.archetypes@.len() && a != b
                implies #[trigger] self.archetypes@[a].types != #[trigger] self.archetypes@[b].types by {
                assert(self.archetypes@[a].types == mid.archetypes@[a].types);
                assert(self.archetypes@[b].types == mid.archetypes@[b].types);
            }
            assert forall|k: u64| #[trigger] self.entities@.contains_key(k) implies {
                let (a, r) = self.entities@[k];
                &&& k < self.next_entity
                &&& a < self.archetypes@.len()
                &&& r < self.archetypes@[a as int].entity_count
                &&& self.row_entity(a as int, r as int) == Entity(k)
            } by {
                if k != entity.0 {
                    let (a, r) = mid.entities@[k];
                    assert(mid.row_entity(a as int, r as int) == Entity(k));
                    if a == idx {
                        assert(self.archetypes@[a as int].entity_ids@[r as int]
                            == mid.archetypes@[a as int].entity_ids@[r as int]);
                    } else {
                        assert(self.archetypes@[a as int] == mid.archetypes@[a as int]);
                    }
                }
            }
            assert forall|a: int, r: int|
                0 <= a < self.archetypes@.len() && 0 <= r < self.archetypes@[a].entity_count
                implies self.entities@.contains_key(#[trigger] self.row_entity(a, r).0)
                && self.entities@[self.row_entity(a, r).0] == (a as usize, r as usize) by {
                if a == idx && r == row {
                    assert(self.row_entity(a, r) == entity);
                } else if a == idx {
                    assert(self.row_entity(a, r) == mid.row_entity(a, r));
                    assert(mid.entities@.contains_key(mid.row_entity(a, r).0));
                } else {
                    assert(self.archetypes@[a] == mid.archetypes@[a]);
                    assert(self.row_entity(a, r) == mid.row_entity(a, r));
                    assert(mid.entities@.contains_key(mid.row_entity(a, r).0));
                }
            }
            let before = mid.archetypes@[idx as int];
            let after = self.archetypes@[idx as int];
            assert(before.wf());
            assert forall|i: int| 0 <= i < B::spec_types().len() implies self.component_of(entity, #[trigger] B::spec_types()[i])
                == bundle.spec_values()[i] by {
                assert(vals[i].kind() == B::spec_types()[i]);
                assert(after.column(vals[i].kind()) == before.column(vals[i].kind()).push(vals[i]));
                assert(before.types.has(vals[i].kind()));
                assert(before.column(vals[i].kind()).len() == before.entity_count);
            }
            assert forall|t: ComponentType| #![auto]
                if after.types.has(t) {
                    after.column(t).drop_last() == before.column(t)
                } else {
                    after.column(t) == before.column(t)
                } by {
                if after.types.has(t) {
                    let i = choose|i: int| 0 <= i < vals.len() && #[trigger] vals[i].kind() == t;
                    assert(after.column(vals[i].kind()) == before.column(vals[i].kind()).push(vals[i]));
                    assert(after.column(t).drop_last() =~= before.column(t));
                }
            }
        }
        entity
    }
}


/// Whether one of the first `n` clears named a kind of `types`.
pub open spec fn cleared_by_prefix(kinds: Seq<ComponentType>, n: int, types: ComponentTypeSet) -> bool {
    exists|j: int| 0 <= j < n && types.has(#[trigger] kinds[j])
}

proof fn lemma_clears_prefix(
    worlds: Seq<InternalWorld>,
    kinds: Seq<ComponentType>,
    e: Entity,
    n: int,
)
    requires
        worlds.len() == kinds.len() + 1,
        forall|i: int|
            0 <= i < kinds.len() ==> InternalWorld::cleared_of(
                #[trigger] worlds[i],
                worlds[i + 1],
                kinds[i],
            ),
        worlds[0].wf(),
        worlds[0].location(e) is Some,
        0 <= n <= kinds.len(),
    ensures
        ({
            let (a, r) = worlds[0].location(e)->0;
            let types = worlds[0].archetypes@[a as int].types;
            &&& worlds[n].archetypes@.len() == worlds[0].archetypes@.len()
            &&& worlds[n].archetypes@[a as int].types == types
            &&& cleared_by_prefix(kinds, n, types) ==> worlds[n].location(e) is None
                && worlds[n].archetypes@[a as int].entity_count == 0
            &&& !cleared_by_prefix(kinds, n, types) ==> worlds[n].location(e) == Some((a, r))
        }),
    decreases n,
{
    let (a, r) = worlds[0].location(e)->0;
    let types = worlds[0].archetypes@[a as int].types;
    if n > 0 {
        lemma_clears_prefix(worlds, kinds, e, n - 1);
        let w0 = worlds[n - 1];
        let w1 = worlds[n];
        let t = kinds[n - 1];
        assert(InternalWorld::cleared_of(w0, w1, t));
        let before = w0.archetypes@[a as int];
        assert(a < worlds[0].archetypes@.len());
        if types.has(t) {
            assert(cleared_by_prefix(kinds, n, types));
            assert(w1.archetypes@[a as int].is_empty_of(before.types));
            assert(!w1.entities@.contains_key(e.0));
        } else {
            assert(w1.archetypes@[a as int] == before);
            if cleared_by_prefix(kinds, n, types) {
                let j = choose|j: int| 0 <= j < n && types.has(#[trigger] kinds[j]);
                assert(j < n - 1);
                assert(cleared_by_prefix(kinds, n - 1, types));
                assert(!w1.entities@.contains_key(e.0));
            } else {
                assert(!cleared_by_prefix(kinds, n - 1, types));
                assert(w0.entities@.contains_key(e.0));
                assert(w1.entities@.contains_key(e.0));
            }
        }
    }
}

/// After an entity is spawned, clearing each kind of its archetype's set in
/// turn (other clears may come between) removes the entity from lookup and
/// leaves its archetype without entities.
pub proof fn lemma_clearing_its_kinds_removes_entity(
    worlds: Seq<InternalWorld>,
    kinds: Seq<ComponentType>,
    e: Entity,
)
    requires
        worlds.len() == kinds.len() + 1,
        forall|i: int|
            0 <= i < kinds.len() ==> InternalWorld::cleared_of(
                #[trigger] worlds[i],
                worlds[i + 1],
                kinds[i],
            ),
        worlds[0].wf(),
        worlds[0].location(e) is Some,
        forall|t: ComponentType|
            worlds[0].archetypes@[worlds[0].archetype_index_of(e)].types.has(t) ==> kinds.contains(t),
        exists|t: ComponentType| worlds[0].archetypes@[worlds[0].archetype_index_of(e)].types.has(t),
    ensures
        worlds.last().location(e) is None,
        worlds.last().archetypes@[worlds[0].archetype_index_of(e)].entity_count == 0,
{
    let (a, r) = worlds[0].location(e)->0;
    let types = worlds[0].archetypes@[a as int].types;
    let t = choose|t: ComponentType| types.has(t);
    assert(kinds.contains(t));
    let j = choose|j: int| 0 <= j < kinds.len() && kinds[j] == t;
    assert(cleared_by_prefix(kinds, kinds.len() as int, types));
    lemma_clears_prefix(worlds, kinds, e, kinds.len() as int);
}

} // verus!

use vstd::prelude::*;

use crate::geometry::{Rect, Vec3};

verus! {

/// The closed set of component kinds an entity can carry.
#[derive(Debug, Clone, Copy, PartialEq, Eq, Structural, Hash)]
pub enum ComponentType {
    Transform,
    Velocity,
    Material,
    Player,
    Obstacle,
    Button,
    Physics,
    Sprite,
}

/// An exact set of component kinds, one flag per kind.
#[derive(Debug, Clone, Copy, PartialEq, Eq, Structural)]
pub struct ComponentTypeSet {
    pub transform: bool,
    pub velocity: bool,
    pub material: bool,
    pub player: bool,
    pub obstacle: bool,
    pub button: bool,
    pub physics: bool,
    pub sprite: bool,
}

impl ComponentTypeSet {
    pub open spec fn has(self, t: ComponentType) -> bool {
        match t {
            ComponentType::Transform => self.transform,
            ComponentType::Velocity => self.velocity,
            ComponentType::Material => self.material,
            ComponentType::Player => self.player,
            ComponentType::Obstacle => self.obstacle,
            ComponentType::Button => self.button,
            ComponentType::Physics => self.physics,
            ComponentType::Sprite => self.sprite,
        }
    }

    pub open spec fn view(self) -> Set<ComponentType> {
        Set::new(|t: ComponentType| self.has(t))
    }

    /// Two flag sets with the same members are the same value.
    pub proof fn lemma_same_members_equal(self, other: ComponentTypeSet)
        requires
            forall|t: ComponentType| self.has(t) == other.has(t),
        ensures
            self == other,
    {
        assert(self.has(ComponentType::Transform) == other.has(ComponentType::Transform));
        assert(self.has(ComponentType::Velocity) == other.has(ComponentType::Velocity));
        assert(self.has(ComponentType::Material) == other.has(ComponentType::Material));
        assert(self.has(ComponentType::Player) == other.has(ComponentType::Player));
        assert(self.has(ComponentType::Obstacle) == other.has(ComponentType::Obstacle));
        assert(self.has(ComponentType::Button) == other.has(ComponentType::Button));
        assert(self.has(ComponentType::Physics) == other.has(ComponentType::Physics));
        assert(self.has(ComponentType::Sprite) == other.has(ComponentType::Sprite));
    }

    pub fn empty() -> (r: ComponentTypeSet)
        ensures
            forall|t: ComponentType| !r.has(t),
    {
        ComponentTypeSet {
            transform: false,
            velocity: false,
            material: false,
            player: false,
            obstacle: false,
            button: false,
            physics: false,
            sprite: false,
        }
    }

    pub fn contains(&self, t: ComponentType) -> (r: bool)
        ensures
            r == self.has(t),
    {
        match t {
            ComponentType::Transform => self.transform,
            ComponentType::Velocity => self.velocity,
            ComponentType::Material => self.material,
            ComponentType::Player => self.player,
            ComponentType::Obstacle => self.obstacle,
            ComponentType::Button => self.button,
            ComponentType::Physics => self.physics,
            ComponentType::Sprite => self.sprite,
        }
    }

    pub fn insert(&mut self, t: ComponentType)
        ensures
            forall|u: ComponentType| final(self).has(u) == (old(self).has(u) || u == t),
    {
        match t {
            ComponentType::Transform => self.transform = true,
            ComponentType::Velocity => self.velocity = true,
            ComponentType::Material => self.material = true,
            ComponentType::Player => self.player = true,
            ComponentType::Obstacle => self.obstacle = true,
            ComponentType::Button => self.button = true,
            ComponentType::Physics => self.physics = true,
            ComponentType::Sprite => self.sprite = true,
        }
    }

    /// The set holding exactly the kinds of the list.
    pub open spec fn spec_of(types: Seq<ComponentType>) -> ComponentTypeSet {
        ComponentTypeSet {
            transform: types.contains(ComponentType::Transform),
            velocity: types.contains(ComponentType::Velocity),
            material: types.contains(ComponentType::Material),
            player: types.contains(ComponentType::Player),
            obstacle: types.contains(ComponentType::Obstacle),
            button: types.contains(ComponentType::Button),
            physics: types.contains(ComponentType::Physics),
            sprite: types.contains(ComponentType::Sprite),
        }
    }

    /// Builds the set of the kinds in the list.
    pub fn from_types(types: &Vec<ComponentType>) -> (r: ComponentTypeSet)
        ensures
            r == Self::spec_of(types@),
            forall|t: ComponentType| r.has(t) == types@.contains(t),
    {
        let mut r = Self::empty();
        let mut i: usize = 0;
        while i < types.len()
            invariant
                i <= types.len(),
                forall|t: ComponentType| r.has(t) == types@.subrange(0, i as int).contains(t),
            decreases types.len() - i,
        {
            proof {
                let s = types@.subrange(0, i as int);
                let s2 = types@.subrange(0, i as int + 1);
                assert(s2 =~= s.push(types@[i as int]));
                assert forall|t: ComponentType| s2.contains(t) == (s.contains(t) || t
                    == types@[i as int]) by {
                    if s2.contains(t) {
                        let j = choose|j: int| 0 <= j < s2.len() && s2[j] == t;
                        if j < s.len() {
                            assert(s[j] == t);
                        }
                    }
                    if s.contains(t) {
                        let j = choose|j: int| 0 <= j < s.len() && s[j] == t;
                        assert(s2[j] == t);
                    }
                    if t == types@[i as int] {
                        assert(s2[i as int] == t);
                    }
                }
            }
            r.insert(types[i]);
            i += 1;
        }
        assert(types@.subrange(0, types.len() as int) =~= types@);
        proof {
            r.lemma_same_members_equal(Self::spec_of(types@));
        }
        r
    }
}

/// Position, rotation and scale of an entity, in sub-pixels.
#[derive(Debug, Clone, Copy, PartialEq, Eq, Structural)]
pub struct Transform {
    pub position: Vec3,
    pub rotation: Vec3,
    pub scale: Vec3,
}

/// A velocity in pixels per second, which is sub-pixels per fixed step.
#[derive(Debug, Clone, Copy, PartialEq, Eq, Structural)]
pub struct Velocity {
    pub x: i32,
    pub y: i32,
    pub z: i32,
}

/// The texture an entity is drawn with.
#[derive(Debug, Clone, Copy, PartialEq, Eq, Structural)]
pub struct Material {
    pub texture_handle: u32,
}

/// Marks the entity the player steers.
#[derive(Debug, Clone, Copy, PartialEq, Eq, Structural)]
pub struct Player;

/// Marks a falling obstacle.
#[derive(Debug, Clone, Copy, PartialEq, Eq, Structural)]
pub struct Obstacle;

/// Marks a plain drawable sprite.
#[derive(Debug, Clone, Copy, PartialEq, Eq, Structural)]
pub struct Sprite;

/// Ties an entity to a body owned by the host's physics simulation.
#[derive(Debug, Clone, Copy, PartialEq, Eq, Structural)]
pub struct PhysicsBody {
    pub id: u64,
}

/// What a menu button does when it is clicked.
#[derive(Debug, Clone, Copy, PartialEq, Eq, Structural, Hash)]
pub enum ButtonAction {
    StartGame,
    ResumeGame,
    RetryGame,
    BackToTitle,
    MasterVolumeDown,
    MasterVolumeUp,
    BgmVolumeDown,
    BgmVolumeUp,
    SeVolumeDown,
    SeVolumeUp,
    ToggleFullscreen,
}

/// A clickable labelled rectangle.
#[derive(Debug)]
pub struct Button {
    pub rect: Rect,
    pub text: String,
    pub action: ButtonAction,
}

/// One component value of any kind.
#[derive(Debug)]
pub enum ComponentValue {
    Transform(Transform),
    Velocity(Velocity),
    Material(Material),
    Player(Player),
    Obstacle(Obstacle),
    Button(Button),
    Physics(PhysicsBody),
    Sprite(Sprite),
}

impl ComponentValue {
    pub open spec fn kind(&self) -> ComponentType {
        match self {
            ComponentValue::Transform(_) => ComponentType::Transform,
            ComponentValue::Velocity(_) => ComponentType::Velocity,
            ComponentValue::Material(_) => ComponentType::Material,
            ComponentValue::Player(_) => ComponentType::Player,
            ComponentValue::Obstacle(_) => ComponentType::Obstacle,
            ComponentValue::Button(_) => ComponentType::Button,
            ComponentValue::Physics(_) => ComponentType::Physics,
            ComponentValue::Sprite(_) => ComponentType::Sprite,
        }
    }
}

/// A value that can be stored as a component of an entity.
pub trait Component: Sized {
    spec fn spec_component_type() -> ComponentType;

    /// The value tagged with its kind.
    spec fn spec_value(self) -> ComponentValue;

    fn component_type() -> (t: ComponentType)
        ensures
            t == Self::spec_component_type(),
    ;

    fn into_value(self) -> (v: ComponentValue)
        ensures
            v.kind() == Self::spec_component_type(),
            v == self.spec_value(),
    ;
}

impl Component for Transform {
    open spec fn spec_component_type() -> ComponentType {
        ComponentType::Transform
    }

    fn component_type() -> (t: ComponentType) {
        ComponentType::Transform
    }

    open spec fn spec_value(self) -> ComponentValue {
        ComponentValue::Transform(self)
    }

    fn into_value(self) -> (v: ComponentValue) {
        ComponentValue::Transform(self)
    }
}

impl Component for Velocity {
    open spec fn spec_component_type() -> ComponentType {
        ComponentType::Velocity
    }

    fn component_type() -> (t: ComponentType) {
        ComponentType::Velocity
    }

    open spec fn spec_value(self) -> ComponentValue {
        ComponentValue::Velocity(self)
    }

    fn into_value(self) -> (v: ComponentValue) {
        ComponentValue::Velocity(self)
    }
}

impl Component for Material {
    open spec fn spec_component_type() -> ComponentType {
        ComponentType::Material
    }

    fn component_type() -> (t: ComponentType) {
        ComponentType::Material
    }

    open spec fn spec_value(self) -> ComponentValue {
        ComponentValue::Material(self)
    }

    fn into_value(self) -> (v: ComponentValue) {
        ComponentValue::Material(self)
    }
}

impl Component for Player {
    open spec fn spec_component_type() -> ComponentType {
        ComponentType::Player
    }

    fn component_type() -> (t: ComponentType) {
        ComponentType::Player
    }

    open spec fn spec_value(self) -> ComponentValue {
        ComponentValue::Player(self)
    }

    fn into_value(self) -> (v: ComponentValue) {
        ComponentValue::Player(self)
    }
}

impl Component for Obstacle {
    open spec fn spec_component_type() -> ComponentType {
        ComponentType::Obstacle
    }

    fn component_type() -> (t: ComponentType) {
        ComponentType::Obstacle
    }

    open spec fn spec_value(self) -> ComponentValue {
        ComponentValue::Obstacle(self)
    }

    fn into_value(self) -> (v: ComponentValue) {
        ComponentValue::Obstacle(self)
    }
}

impl Component for Button {
    open spec fn spec_component_type() -> ComponentType {
        ComponentType::Button
    }

    fn component_type() -> (t: ComponentType) {
        ComponentType::Button
    }

    open spec fn spec_value(self) -> ComponentValue {
        ComponentValue::Button(self)
    }

    fn into_value(self) -> (v: ComponentValue) {
        ComponentValue::Button(self)
    }
}

impl Component for PhysicsBody {
    open spec fn spec_component_type() -> ComponentType {
        ComponentType::Physics
    }

    fn component_type() -> (t: ComponentType) {
        ComponentType::Physics
    }

    open spec fn spec_value(self) -> ComponentValue {
        ComponentValue::Physics(self)
    }

    fn into_value(self) -> (v: ComponentValue) {
        ComponentValue::Physics(self)
    }
}

impl Component for Sprite {
    open spec fn spec_component_type() -> ComponentType {
        ComponentType::Sprite
    }

    fn component_type() -> (t: ComponentType) {
        ComponentType::Sprite
    }

    open spec fn spec_value(self) -> ComponentValue {
        ComponentValue::Sprite(self)
    }

    fn into_value(self) -> (v: ComponentValue) {
        ComponentValue::Sprite(self)
    }
}

} // verus!

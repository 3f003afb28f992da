//! The rules of the game around the physics: input, jumping, the player's
//! velocity, the entities and the tick that moves them.
//!
//! Distances count thousandths of a pixel, and so does an input axis that
//! is pressed all the way.

use vstd::prelude::*;
use crate::aabb::Aabb;
use crate::collide::Collide;
use crate::left_solid_edge::divide_toward_zero;
use crate::left_solid_edge::is_movement;
use crate::left_solid_edge::toward_zero;
use crate::best_of::closest_of;
use crate::axis_aligned_rect::AxisAlignedRect;
use crate::collide::Collision;
use crate::line_segment::LineSegment;
use crate::line_segment::SolidSide;
use crate::movement::collisions_with;
use crate::movement::displacements_among;
use crate::movement::near_of;
use crate::movement::resolve_with;
use crate::movement::spec_max_velocity;
use crate::movement::MovementContext;
use crate::movement::spec_below_test_movement;
use crate::movement::Displacement;
use crate::movement::Movement;
use crate::movement::EntityId;
use crate::movement::ForEachShapePosition;
use crate::shape::Shape;
use crate::shape::ShapePosition;
use crate::loose_quad_tree::lemma_found_sound;
use crate::loose_quad_tree::spec_bounds_for;
use crate::loose_quad_tree::spec_found;
use crate::loose_quad_tree::Bounds;
use crate::loose_quad_tree::LooseQuadTree;
use crate::vector::lemma_product_bound;
use crate::vector::Vector2;
use crate::vector::MOVEMENT_LIMIT;
use crate::vector::POSITION_LIMIT;

verus! {

/// World units in a pixel; also an input axis at full deflection.
pub const UNIT: i64 = 1000;

/// Largest magnitude of a component of a velocity that the game keeps.
pub const VELOCITY_LIMIT: i64 = 0x8_0000;

/// `value` brought into `[min, max]`; `max` wins where the two cross.
pub open spec fn spec_clamp(value: int, min: int, max: int) -> int {
    let raised = if value < min { min } else { value };
    if raised > max {
        max
    } else {
        raised
    }
}

pub fn clamp(value: i64, min: i64, max: i64) -> (r: i64)
    ensures
        r == spec_clamp(value as int, min as int, max as int),
{
    let raised: i64 = if value < min { min } else { value };
    if raised > max {
        max
    } else {
        raised
    }
}

/// `r` is the whole part of the square root of `n`.
pub open spec fn is_root(r: int, n: int) -> bool {
    r >= 0 && r * r <= n < (r + 1) * (r + 1)
}

/// The whole part of the square root of `n`.
pub open spec fn spec_isqrt(n: int) -> int {
    choose|r: int| is_root(r, n)
}

/// A number has one whole square root.
pub proof fn lemma_root_unique(a: int, b: int, n: int)
    requires
        is_root(a, n),
        is_root(b, n),
    ensures
        a == b,
{
    assert(a == b) by (nonlinear_arith)
        requires
            a >= 0,
            b >= 0,
            a * a <= n < (a + 1) * (a + 1),
            b * b <= n < (b + 1) * (b + 1),
    ;
}

/// The whole part of the square root of `n`.
pub fn isqrt(n: u64) -> (r: u64)
    requires
        n <= 0xffff_ffff,
    ensures
        is_root(r as int, n as int),
        r == spec_isqrt(n as int),
{
    let mut r: u64 = 0;
    loop
        invariant
            r * r <= n,
            r <= 0xffff,
            n <= 0xffff_ffff,
        ensures
            is_root(r as int, n as int),
        decreases 0x1_0000 - r,
    {
        let next: u64 = r + 1;
        proof {
            lemma_product_bound(next as int, next as int, 0x1_0000, 0x1_0000);
        }
        if next * next > n {
            break ;
        }
        proof {
            assert(next <= 0xffff) by (nonlinear_arith)
                requires
                    next * next <= n,
                    n <= 0xffff_ffff,
                    next >= 0,
            ;
        }
        r = next;
    }
    proof {
        let c = spec_isqrt(n as int);
        lemma_root_unique(r as int, c, n as int);
    }
    r
}

/// What the player asks for: four axes, each from nothing to `UNIT`, and
/// the jump key with the number of ticks it has been held.
#[derive(Debug)]
pub struct InputModel {
    left: i64,
    right: i64,
    up: i64,
    down: i64,
    jump_current: bool,
    jump_count: Option<u64>,
}

impl Default for InputModel {
    fn default() -> (r: InputModel)
        ensures
            r.axes() == (0i64, 0i64, 0i64, 0i64),
            !r.jump_held(),
            r.spec_jump_count() == None::<u64>,
            r.wf(),
    {
        InputModel { left: 0, right: 0, up: 0, down: 0, jump_current: false, jump_count: None }
    }
}

impl InputModel {
    /// The axes left, right, up and down.
    pub closed spec fn axes(&self) -> (i64, i64, i64, i64) {
        (self.left, self.right, self.up, self.down)
    }

    pub closed spec fn jump_held(&self) -> bool {
        self.jump_current
    }

    /// For how many ticks the jump key has been held, counting from zero;
    /// nothing while it is up.
    pub closed spec fn spec_jump_count(&self) -> Option<u64> {
        self.jump_count
    }

    /// Every axis lies between nothing and `UNIT`.
    pub open spec fn wf(&self) -> bool {
        &&& 0 <= self.axes().0 <= UNIT
        &&& 0 <= self.axes().1 <= UNIT
        &&& 0 <= self.axes().2 <= UNIT
        &&& 0 <= self.axes().3 <= UNIT
    }

    pub open spec fn spec_horizontal(&self) -> int {
        self.axes().1 - self.axes().0
    }

    pub open spec fn spec_vertical(&self) -> int {
        self.axes().3 - self.axes().2
    }

    /// The direction that is asked for: the two axes, shortened to the
    /// length `UNIT` where they are longer together.
    pub open spec fn spec_movement(&self) -> Vector2 {
        let x = self.spec_horizontal();
        let y = self.spec_vertical();
        let length2 = x * x + y * y;
        if length2 > UNIT * UNIT {
            Vector2 {
                x: toward_zero(x * UNIT, spec_isqrt(length2)) as i64,
                y: toward_zero(y * UNIT, spec_isqrt(length2)) as i64,
            }
        } else {
            Vector2 { x: x as i64, y: y as i64 }
        }
    }

    /// For how many ticks the jump key has been held.
    pub fn jump_count(&self) -> (r: Option<u64>)
        ensures
            r == self.spec_jump_count(),
    {
        self.jump_count
    }

    pub fn set_jump(&mut self, jump: bool)
        ensures
            final(self).jump_held() == jump,
            final(self).axes() == old(self).axes(),
            final(self).spec_jump_count() == old(self).spec_jump_count(),
    {
        self.jump_current = jump;
    }

    pub fn set_left(&mut self, value: i64)
        ensures
            final(self).axes() == (
                spec_clamp(value as int, 0, UNIT as int) as i64,
                old(self).axes().1,
                old(self).axes().2,
                old(self).axes().3,
            ),
            final(self).jump_held() == old(self).jump_held(),
            final(self).spec_jump_count() == old(self).spec_jump_count(),
    {
        self.left = clamp(value, 0, UNIT);
    }

    pub fn set_right(&mut self, value: i64)
        ensures
            final(self).axes() == (
                old(self).axes().0,
                spec_clamp(value as int, 0, UNIT as int) as i64,
                old(self).axes().2,
                old(self).axes().3,
            ),
            final(self).jump_held() == old(self).jump_held(),
            final(self).spec_jump_count() == old(self).spec_jump_count(),
    {
        self.right = clamp(value, 0, UNIT);
    }

    pub fn set_up(&mut self, value: i64)
        ensures
            final(self).axes() == (
                old(self).axes().0,
                old(self).axes().1,
                spec_clamp(value as int, 0, UNIT as int) as i64,
                old(self).axes().3,
            ),
            final(self).jump_held() == old(self).jump_held(),
            final(self).spec_jump_count() == old(self).spec_jump_count(),
    {
        self.up = clamp(value, 0, UNIT);
    }

    pub fn set_down(&mut self, value: i64)
        ensures
            final(self).axes() == (
                old(self).axes().0,
                old(self).axes().1,
                old(self).axes().2,
                spec_clamp(value as int, 0, UNIT as int) as i64,
            ),
            final(self).jump_held() == old(self).jump_held(),
            final(self).spec_jump_count() == old(self).spec_jump_count(),
    {
        self.down = clamp(value, 0, UNIT);
    }

    pub fn horizontal(&self) -> (r: i64)
        requires
            self.wf(),
        ensures
            r == self.spec_horizontal(),
    {
        self.right - self.left
    }

    pub fn vertical(&self) -> (r: i64)
        requires
            self.wf(),
        ensures
            r == self.spec_vertical(),
    {
        self.down - self.up
    }

    /// The direction that is asked for, at most `UNIT` long.
    pub fn movement(&self) -> (r: Vector2)
        requires
            self.wf(),
        ensures
            r == self.spec_movement(),
            r.within(UNIT as int),
    {
        let x: i64 = self.horizontal();
        let y: i64 = self.vertical();
        let raw = Vector2 { x, y };
        proof {
            lemma_product_bound(x as int, x as int, UNIT as int, UNIT as int);
            lemma_product_bound(y as int, y as int, UNIT as int, UNIT as int);
            assert(UNIT * UNIT == 1_000_000) by (nonlinear_arith)
                requires
                    UNIT == 1000,
            ;
        }
        let length2: u128 = raw.magnitude2();
        if length2 > 1_000_000 {
            let root: u64 = isqrt(length2 as u64);
            proof {
                assert(root >= 1000) by (nonlinear_arith)
                    requires
                        (root + 1) * (root + 1) > length2,
                        length2 > 1_000_000,
                        root >= 0,
                ;
                lemma_product_bound(x as int, UNIT as int, UNIT as int, UNIT as int);
                lemma_product_bound(y as int, UNIT as int, UNIT as int, UNIT as int);
                lemma_unit_over_root(x as int, root as int);
                lemma_unit_over_root(y as int, root as int);
            }
            let nx: i128 = divide_toward_zero((x as i128) * (UNIT as i128), root as i128);
            let ny: i128 = divide_toward_zero((y as i128) * (UNIT as i128), root as i128);
            Vector2 { x: nx as i64, y: ny as i64 }
        } else {
            raw
        }
    }

    /// Counts the ticks for which the jump key has been held: a key that is
    /// down starts at zero and counts on, a key that is up has no count.
    pub fn after_process(&mut self)
        requires
            old(self).spec_jump_count() matches Some(count) ==> count < u64::MAX,
        ensures
            final(self).axes() == old(self).axes(),
            final(self).jump_held() == old(self).jump_held(),
            final(self).spec_jump_count() == (if old(self).jump_held() {
                match old(self).spec_jump_count() {
                    Some(count) => Some((count + 1) as u64),
                    None => Some(0u64),
                }
            } else {
                None
            }),
    {
        if self.jump_current {
            self.jump_count =
            match self.jump_count {
                Some(count) => Some(count + 1),
                None => Some(0),
            }
        } else {
            self.jump_count = None;
        }
    }
}

/// An axis value scaled by `UNIT` over a root of at least `UNIT` stays an
/// axis value.
proof fn lemma_unit_over_root(c: int, root: int)
    requires
        -UNIT <= c <= UNIT,
        root >= UNIT,
    ensures
        -UNIT <= toward_zero(c * UNIT, root) <= UNIT,
{
    let a = c * UNIT;
    let q = toward_zero(a, root);
    crate::left_solid_edge::lemma_toward_zero(a, root);
    assert(-UNIT <= q <= UNIT) by (nonlinear_arith)
        requires
            a == c * UNIT,
            -UNIT <= c <= UNIT,
            root >= UNIT,
            UNIT == 1000,
            a >= 0 ==> 0 <= q && q * root <= a,
            a <= 0 ==> q <= 0 && a <= q * root,
    ;
}

/// How long a jump pushes upwards, in ticks.
pub const JUMP_FRAMES: u64 = 6;

/// The upward velocity that each remaining tick of a jump adds.
pub const JUMP_STEP: i64 = 400;

/// What gravity adds to the downward velocity in a tick.
pub const GRAVITY: i64 = 500;

/// The velocity that full deflection of the horizontal axis asks for, in
/// units of the axis: four pixels a tick.
pub const RUN_MULTIPLIER: i64 = 4;

/// Largest horizontal velocity relative to what the player stands on.
pub const MAX_LATERAL: i64 = 10_000;

/// The upward push in tick `count` of a jump: it falls off tick by tick and
/// is gone after `JUMP_FRAMES` ticks.
pub open spec fn spec_jump_frame_count_to_velocity(count: u64) -> Option<i64> {
    if count >= JUMP_FRAMES {
        None
    } else {
        Some(((JUMP_FRAMES - count) * JUMP_STEP) as i64)
    }
}

pub fn jump_frame_count_to_velocity(count: u64) -> (r: Option<i64>)
    ensures
        r == spec_jump_frame_count_to_velocity(count),
{
    if count >= JUMP_FRAMES {
        None
    } else {
        Some(((JUMP_FRAMES - count) as i64) * JUMP_STEP)
    }
}

#[derive(Clone, Copy, Debug, PartialEq, Eq, Structural)]
pub enum JumpStateMachine {
    NotJumping,
    JumpingForFrames(u64),
}

impl JumpStateMachine {
    /// The state after a tick. A key that went down this tick starts a jump
    /// if the player stands on something and ends any jump if not; a key
    /// that stays down lets a jump go on; a key that is up ends it.
    pub open spec fn after_step(self, can_jump: bool, jump_count: Option<u64>) -> JumpStateMachine {
        match jump_count {
            Some(count) => if count == 0 {
                if can_jump {
                    JumpStateMachine::JumpingForFrames(0)
                } else {
                    JumpStateMachine::NotJumping
                }
            } else {
                match self {
                    JumpStateMachine::NotJumping => JumpStateMachine::NotJumping,
                    JumpStateMachine::JumpingForFrames(n) => JumpStateMachine::JumpingForFrames(
                        (n + 1) as u64,
                    ),
                }
            },
            None => JumpStateMachine::NotJumping,
        }
    }

    pub fn step(&mut self, can_jump: bool, input: &InputModel)
        requires
            *old(self) matches JumpStateMachine::JumpingForFrames(n) ==> n < u64::MAX,
        ensures
            *final(self) == old(self).after_step(can_jump, input.spec_jump_count()),
    {
        if let Some(jump_count) = input.jump_count {
            if jump_count == 0 {
                if can_jump {
                    *self = JumpStateMachine::JumpingForFrames(0);
                } else {
                    *self = JumpStateMachine::NotJumping;
                }
            } else {
                match *self {
                    JumpStateMachine::NotJumping => (),
                    JumpStateMachine::JumpingForFrames(n) => {
                        *self = JumpStateMachine::JumpingForFrames(n + 1);
                    },
                }
            }
        } else {
            *self = JumpStateMachine::NotJumping;
        }
    }
}

/// A velocity with each component brought within the limit that the game
/// keeps.
pub open spec fn spec_limit_velocity(v: Vector2) -> Vector2 {
    Vector2 {
        x: spec_clamp(v.x as int, -VELOCITY_LIMIT, VELOCITY_LIMIT as int) as i64,
        y: spec_clamp(v.y as int, -VELOCITY_LIMIT, VELOCITY_LIMIT as int) as i64,
    }
}

pub fn limit_velocity(v: Vector2) -> (r: Vector2)
    ensures
        r == spec_limit_velocity(v),
        r.within(VELOCITY_LIMIT as int),
{
    Vector2 {
        x: clamp(v.x, -VELOCITY_LIMIT, VELOCITY_LIMIT),
        y: clamp(v.y, -VELOCITY_LIMIT, VELOCITY_LIMIT),
    }
}

/// A position with each component brought within the limit for positions.
pub open spec fn spec_confine(p: Vector2) -> Vector2 {
    Vector2 {
        x: spec_clamp(p.x as int, -POSITION_LIMIT, POSITION_LIMIT as int) as i64,
        y: spec_clamp(p.y as int, -POSITION_LIMIT, POSITION_LIMIT as int) as i64,
    }
}

pub fn confine(p: Vector2) -> (r: Vector2)
    ensures
        r == spec_confine(p),
        r.within(POSITION_LIMIT as int),
{
    Vector2 {
        x: clamp(p.x, -POSITION_LIMIT, POSITION_LIMIT),
        y: clamp(p.y, -POSITION_LIMIT, POSITION_LIMIT),
    }
}

/// What a tick adds to the player's downward velocity: gravity, or the push
/// of a jump while it lasts.
pub open spec fn vertical_delta(jump: JumpStateMachine) -> int {
    match jump {
        JumpStateMachine::NotJumping => GRAVITY as int,
        JumpStateMachine::JumpingForFrames(n) => match spec_jump_frame_count_to_velocity(n) {
            Some(y) => -y,
            None => GRAVITY as int,
        },
    }
}

/// The player's velocity for the next tick. Relative to what the player
/// stands on, the horizontal velocity is what the input asks for, within
/// the lateral limit, and the vertical velocity grows by gravity or by the
/// push of a jump. The velocity of what the player stands on is added to
/// both.
pub open spec fn spec_update_player_velocity(
    current_velocity: Vector2,
    input_movement: Vector2,
    max_platform_velocity: Option<Vector2>,
    jump: JumpStateMachine,
) -> Vector2 {
    let platform = match max_platform_velocity {
        Some(v) => v,
        None => Vector2 { x: 0, y: 0 },
    };
    let horizontal = spec_clamp(
        input_movement.x * RUN_MULTIPLIER,
        -MAX_LATERAL,
        MAX_LATERAL as int,
    );
    let vertical = current_velocity.y - platform.y + vertical_delta(jump);
    Vector2 { x: (platform.x + horizontal) as i64, y: (platform.y + vertical) as i64 }
}

pub fn update_player_velocity(
    current_velocity: Vector2,
    input_model: &InputModel,
    max_platform_velocity: Option<Vector2>,
    jump: &JumpStateMachine,
) -> (r: Vector2)
    requires
        input_model.wf(),
        current_velocity.within(VELOCITY_LIMIT as int),
        max_platform_velocity matches Some(v) ==> v.within(VELOCITY_LIMIT as int),
    ensures
        r == spec_update_player_velocity(
            current_velocity,
            input_model.spec_movement(),
            max_platform_velocity,
            *jump,
        ),
{
    let platform_velocity = match max_platform_velocity {
        Some(v) => v,
        None => Vector2 { x: 0, y: 0 },
    };
    let current_velocity_relative_y: i64 = current_velocity.y - platform_velocity.y;
    let input_movement = input_model.movement();
    let horizontal_velocity_relative: i64 = clamp(
        input_movement.x * RUN_MULTIPLIER,
        -MAX_LATERAL,
        MAX_LATERAL,
    );
    let vertical_delta: i64 = match jump {
        JumpStateMachine::NotJumping => GRAVITY,
        JumpStateMachine::JumpingForFrames(n) => match jump_frame_count_to_velocity(*n) {
            Some(y) => -y,
            None => GRAVITY,
        },
    };
    let vertical_velocity_relative: i64 = current_velocity_relative_y + vertical_delta;
    Vector2 {
        x: platform_velocity.x + horizontal_velocity_relative,
        y: platform_velocity.y + vertical_velocity_relative,
    }
}

/// Hands out entity identifiers, counting up from zero.
pub struct EntityIdAllocator {
    next: u32,
}

impl Default for EntityIdAllocator {
    fn default() -> (a: EntityIdAllocator)
        ensures
            a.spec_next() == 0,
    {
        EntityIdAllocator { next: 0 }
    }
}

impl EntityIdAllocator {
    /// The identifier that is handed out next.
    pub closed spec fn spec_next(&self) -> u32 {
        self.next
    }

    pub fn new() -> (a: EntityIdAllocator)
        ensures
            a.spec_next() == 0,
    {
        EntityIdAllocator { next: 0 }
    }

    /// Hands out the next identifier.
    pub fn allocate(&mut self) -> (id: EntityId)
        requires
            old(self).spec_next() < u32::MAX,
        ensures
            id == old(self).spec_next(),
            final(self).spec_next() == old(self).spec_next() + 1,
    {
        let id = self.next;
        self.next += 1;
        id
    }

    /// Starts again from zero.
    pub fn reset(&mut self)
        ensures
            final(self).spec_next() == 0,
    {
        self.next = 0;
    }
}

/// What every entity has: where it stands, and its shape.
#[derive(Clone, Copy, Debug, PartialEq, Eq, Structural)]
pub struct EntityCommon {
    pub position: Vector2,
    pub shape: Shape,
}

impl EntityCommon {
    pub open spec fn wf(self) -> bool {
        &&& self.shape.wf()
        &&& self.position.within(POSITION_LIMIT as int)
    }

    /// Tells whether the entity can be computed with.
    pub fn is_wf(&self) -> (r: bool)
        ensures
            r == self.wf(),
    {
        self.shape.is_wf() && self.position.is_within(POSITION_LIMIT)
    }

    pub fn new(position: Vector2, shape: Shape) -> (e: EntityCommon)
        ensures
            e.position == position,
            e.shape == shape,
    {
        EntityCommon { position, shape }
    }

    pub fn aabb(&self) -> (b: Aabb)
        requires
            self.wf(),
        ensures
            b == self.shape.spec_aabb(self.position),
            b.wf(),
    {
        self.shape.aabb(self.position)
    }
}


/// What a tick has decided and not yet written back.
pub struct GameStateChanges {
    pub position: Vec<(EntityId, Vector2)>,
    pub velocity: Vec<(EntityId, Vector2)>,
    pub displacements: Vec<(EntityId, Displacement)>,
}

impl GameStateChanges {
    /// Nothing waits to be written back.
    pub open spec fn is_empty(&self) -> bool {
        &&& self.position@.len() == 0
        &&& self.velocity@.len() == 0
        &&& self.displacements@.len() == 0
    }
}

impl Default for GameStateChanges {
    fn default() -> (r: GameStateChanges)
        ensures
            r.is_empty(),
    {
        GameStateChanges {
            position: Vec::new(),
            velocity: Vec::new(),
            displacements: Vec::new(),
        }
    }
}

/// The entities of the game. An entity's identifier is its index in each of
/// the lists.
pub struct GameState {
    pub player_id: Option<EntityId>,
    pub moving_platform_ids: Vec<EntityId>,
    pub entity_id_allocator: EntityIdAllocator,
    pub common: Vec<EntityCommon>,
    pub velocity: Vec<Option<Vector2>>,
    pub dynamic_physics: Vec<bool>,
    pub static_physics: Vec<bool>,
    pub quad_tree: LooseQuadTree,
    pub jump: Vec<Option<JumpStateMachine>>,
    pub frame_count: u64,
}

/// Every identifier in the index belongs to an entity.
pub open spec fn index_within(index: Seq<(Aabb, EntityId)>, count: int) -> bool {
    forall|i: int| 0 <= i < index.len() ==> (#[trigger] index[i]).1 < count
}

/// Every velocity that is kept is within the limit.
pub open spec fn velocities_limited(velocities: Seq<Option<Vector2>>) -> bool {
    forall|i: int|
        0 <= i < velocities.len() ==> ((#[trigger] velocities[i]) matches Some(v) ==> v.within(
            VELOCITY_LIMIT as int,
        ))
}

/// Every entity can be computed with.
pub open spec fn entities_wf(entities: Seq<EntityCommon>) -> bool {
    forall|i: int| 0 <= i < entities.len() ==> (#[trigger] entities[i]).wf()
}

impl GameState {
    /// How many entities there are.
    pub open spec fn count(&self) -> int {
        self.common@.len() as int
    }

    /// The lists are as long as there are entities, every entity can be
    /// computed with, every velocity is within its limit, and every
    /// identifier that is held belongs to an entity.
    pub open spec fn wf(&self) -> bool {
        &&& self.entity_id_allocator.spec_next() == self.count()
        &&& self.velocity@.len() == self.count()
        &&& self.dynamic_physics@.len() == self.count()
        &&& self.static_physics@.len() == self.count()
        &&& self.jump@.len() == self.count()
        &&& entities_wf(self.common@)
        &&& velocities_limited(self.velocity@)
        &&& (self.player_id matches Some(id) ==> id < self.count())
        &&& forall|k: int|
            0 <= k < self.moving_platform_ids@.len() ==> (#[trigger] self.moving_platform_ids@[k])
                < self.count()
        &&& self.quad_tree.wf()
        &&& self.quad_tree@.len() <= self.count()
        &&& index_within(self.quad_tree@, self.count())
    }

    /// A game without entities, in a world of about the size `size_hint`:
    /// the index subdivides that much of it.
    pub fn new(size_hint: Vector2) -> (state: GameState)
        ensures
            state.wf(),
            state@ == empty_world(spec_bounds_for(size_hint)),
    {
        GameState {
            player_id: None,
            moving_platform_ids: Vec::new(),
            entity_id_allocator: EntityIdAllocator::new(),
            common: Vec::new(),
            velocity: Vec::new(),
            dynamic_physics: Vec::new(),
            static_physics: Vec::new(),
            quad_tree: LooseQuadTree::new(size_hint),
            jump: Vec::new(),
            frame_count: 0,
        }
    }

    /// Removes every entity.
    pub fn clear(&mut self)
        requires
            old(self).wf(),
        ensures
            final(self).wf(),
            final(self)@ == empty_world(old(self)@.index.bounds),
    {
        self.player_id = None;
        self.moving_platform_ids.clear();
        self.entity_id_allocator.reset();
        self.common.clear();
        self.velocity.clear();
        self.dynamic_physics.clear();
        self.static_physics.clear();
        self.quad_tree.clear();
        self.jump.clear();
        self.frame_count = 0;
    }

    /// Adds an entity that is not in the index yet: it has no velocity, is
    /// neither dynamic nor static, and does not jump.
    pub fn add_common(&mut self, common: EntityCommon) -> (id: EntityId)
        requires
            old(self).wf(),
            common.wf(),
            old(self).count() < u32::MAX,
        ensures
            final(self).wf(),
            id == old(self).count(),
            final(self).common@ == old(self).common@.push(common),
            final(self).velocity@ == old(self).velocity@.push(None),
            final(self).dynamic_physics@ == old(self).dynamic_physics@.push(false),
            final(self).static_physics@ == old(self).static_physics@.push(false),
            final(self).jump@ == old(self).jump@.push(None),
            final(self)@.index == old(self)@.index,
            final(self).player_id == old(self).player_id,
            final(self).moving_platform_ids@ == old(self).moving_platform_ids@,
            final(self).frame_count == old(self).frame_count,
    {
        let id = self.entity_id_allocator.allocate();
        self.common.push(common);
        self.velocity.push(None);
        self.dynamic_physics.push(false);
        self.static_physics.push(false);
        self.jump.push(None);
        proof {
            assert forall|i: int| 0 <= i < self.common@.len() implies (
            #[trigger] self.common@[i]).wf() by {
                if i < old(self).common@.len() {
                    assert(self.common@[i] == old(self).common@[i]);
                }
            }
            assert forall|i: int| 0 <= i < self.velocity@.len() implies ((
            #[trigger] self.velocity@[i]) matches Some(v) ==> v.within(VELOCITY_LIMIT as int)) by {
                if i < old(self).velocity@.len() {
                    assert(self.velocity@[i] == old(self).velocity@[i]);
                }
            }
        }
        id
    }

    /// Adds an entity and its bounding box to the index.
    pub fn add_static_solid(&mut self, common: EntityCommon) -> (id: EntityId)
        requires
            old(self).wf(),
            common.wf(),
            old(self).count() < u32::MAX,
        ensures
            final(self).wf(),
            id == old(self).count(),
            final(self).common@ == old(self).common@.push(common),
            final(self).velocity@ == old(self).velocity@.push(None),
            final(self).dynamic_physics@ == old(self).dynamic_physics@.push(false),
            final(self).static_physics@ == old(self).static_physics@.push(false),
            final(self).jump@ == old(self).jump@.push(None),
            final(self)@.index == (Index {
                bounds: old(self)@.index.bounds,
                entries: old(self)@.index.entries.push(
                    (common.shape.spec_aabb(common.position), id),
                ),
            }),
            final(self).player_id == old(self).player_id,
            final(self).moving_platform_ids@ == old(self).moving_platform_ids@,
            final(self).frame_count == old(self).frame_count,
    {
        let id = self.add_common(common);
        let ghost before = self.quad_tree@;
        self.quad_tree.insert(common.aabb(), id);
        proof {
            assert forall|i: int| 0 <= i < self.quad_tree@.len() implies (
            #[trigger] self.quad_tree@[i]).1 < self.count() by {
                if i < before.len() {
                    assert(self.quad_tree@[i] == before[i]);
                }
            }
        }
        id
    }

    /// Gives the entity `id` the velocity `velocity`, within the limit.
    pub fn set_velocity(&mut self, id: EntityId, velocity: Vector2)
        requires
            old(self).wf(),
            id < old(self).count(),
        ensures
            final(self).wf(),
            final(self).velocity@ == old(self).velocity@.update(
                id as int,
                Some(spec_limit_velocity(velocity)),
            ),
            final(self).common@ == old(self).common@,
            final(self).dynamic_physics@ == old(self).dynamic_physics@,
            final(self).static_physics@ == old(self).static_physics@,
            final(self).jump@ == old(self).jump@,
            final(self)@.index == old(self)@.index,
            final(self).player_id == old(self).player_id,
            final(self).moving_platform_ids@ == old(self).moving_platform_ids@,
            final(self).frame_count == old(self).frame_count,
    {
        self.velocity[id as usize] = Some(limit_velocity(velocity));
    }

    /// Makes the entity `id` one that moves by its own velocity and is
    /// stopped by what it meets.
    pub fn set_dynamic(&mut self, id: EntityId)
        requires
            old(self).wf(),
            id < old(self).count(),
        ensures
            final(self).wf(),
            final(self).dynamic_physics@ == old(self).dynamic_physics@.update(id as int, true),
            final(self).common@ == old(self).common@,
            final(self).velocity@ == old(self).velocity@,
            final(self).static_physics@ == old(self).static_physics@,
            final(self).jump@ == old(self).jump@,
            final(self)@.index == old(self)@.index,
            final(self).player_id == old(self).player_id,
            final(self).moving_platform_ids@ == old(self).moving_platform_ids@,
            final(self).frame_count == old(self).frame_count,
    {
        self.dynamic_physics[id as usize] = true;
    }

    /// Makes the entity `id` one that moves whatever stands in its way and
    /// pushes what it meets.
    pub fn set_static(&mut self, id: EntityId)
        requires
            old(self).wf(),
            id < old(self).count(),
        ensures
            final(self).wf(),
            final(self).static_physics@ == old(self).static_physics@.update(id as int, true),
            final(self).common@ == old(self).common@,
            final(self).velocity@ == old(self).velocity@,
            final(self).dynamic_physics@ == old(self).dynamic_physics@,
            final(self).jump@ == old(self).jump@,
            final(self)@.index == old(self)@.index,
            final(self).player_id == old(self).player_id,
            final(self).moving_platform_ids@ == old(self).moving_platform_ids@,
            final(self).frame_count == old(self).frame_count,
    {
        self.static_physics[id as usize] = true;
    }

    /// Makes the entity `id` the player: it can jump, and does not yet.
    pub fn set_player(&mut self, id: EntityId)
        requires
            old(self).wf(),
            id < old(self).count(),
        ensures
            final(self).wf(),
            final(self).player_id == Some(id),
            final(self).jump@ == old(self).jump@.update(
                id as int,
                Some(JumpStateMachine::NotJumping),
            ),
            final(self).common@ == old(self).common@,
            final(self).velocity@ == old(self).velocity@,
            final(self).dynamic_physics@ == old(self).dynamic_physics@,
            final(self).static_physics@ == old(self).static_physics@,
            final(self)@.index == old(self)@.index,
            final(self).moving_platform_ids@ == old(self).moving_platform_ids@,
            final(self).frame_count == old(self).frame_count,
    {
        self.player_id = Some(id);
        self.jump[id as usize] = Some(JumpStateMachine::NotJumping);
    }

    /// Makes the entity `id` a platform that the tick gives a velocity:
    /// static, and at rest for now.
    pub fn add_moving_platform(&mut self, id: EntityId)
        requires
            old(self).wf(),
            id < old(self).count(),
        ensures
            final(self).wf(),
            final(self).moving_platform_ids@ == old(self).moving_platform_ids@.push(id),
            final(self).velocity@ == old(self).velocity@.update(
                id as int,
                Some(Vector2 { x: 0, y: 0 }),
            ),
            final(self).static_physics@ == old(self).static_physics@.update(id as int, true),
            final(self).common@ == old(self).common@,
            final(self).dynamic_physics@ == old(self).dynamic_physics@,
            final(self).jump@ == old(self).jump@,
            final(self)@.index == old(self)@.index,
            final(self).player_id == old(self).player_id,
            final(self).frame_count == old(self).frame_count,
    {
        self.moving_platform_ids.push(id);
        self.velocity[id as usize] = Some(Vector2 { x: 0, y: 0 });
        self.static_physics[id as usize] = true;
        proof {
            assert forall|k: int| 0 <= k < self.moving_platform_ids@.len() implies (
            #[trigger] self.moving_platform_ids@[k]) < self.count() by {
                if k < old(self).moving_platform_ids@.len() {
                    assert(self.moving_platform_ids@[k] == old(self).moving_platform_ids@[k]);
                }
            }
        }
    }
}


/// The entities that `found` names, each with its shape where it stands.
pub open spec fn shape_positions(
    entities: Seq<EntityCommon>,
    found: Seq<(Aabb, EntityId)>,
) -> Seq<ShapePosition> {
    Seq::new(
        found.len(),
        |i: int|
            ShapePosition {
                entity_id: found[i].1,
                shape: entities[found[i].1 as int].shape,
                position: entities[found[i].1 as int].position,
            },
    )
}

/// The dynamic entities among those that `found` names, each with its shape
/// where it stands.
pub open spec fn dynamic_shape_positions(
    entities: Seq<EntityCommon>,
    dynamic: Seq<bool>,
    found: Seq<(Aabb, EntityId)>,
) -> Seq<ShapePosition>
    decreases found.len(),
{
    if found.len() == 0 {
        Seq::empty()
    } else {
        let before = dynamic_shape_positions(entities, dynamic, found.drop_last());
        let id = found.last().1;
        if dynamic[id as int] {
            before.push(
                ShapePosition {
                    entity_id: id,
                    shape: entities[id as int].shape,
                    position: entities[id as int].position,
                },
            )
        } else {
            before
        }
    }
}

/// Every entity of a game, as the index finds them.
pub struct AllShapePositions<'a>(pub &'a GameState);

/// The dynamic entities of a game, as the index finds them.
pub struct DynamicPhysicsShapePositions<'a>(pub &'a GameState);

impl<'a> ForEachShapePosition for AllShapePositions<'a> {
    open spec fn wf(&self) -> bool {
        self.0.wf()
    }

    open spec fn near(&self, aabb: Aabb) -> Seq<ShapePosition> {
        shape_positions(
            self.0.common@,
            spec_found(self.0.quad_tree@, self.0.quad_tree.spec_bounds(), aabb),
        )
    }

    fn for_each(&self, aabb: Aabb) -> (found: Vec<ShapePosition>) {
        let entries = self.0.quad_tree.for_each_intersection(&aabb);
        let ghost wanted = shape_positions(self.0.common@, entries@);
        let mut found: Vec<ShapePosition> = Vec::new();
        let mut i: usize = 0;
        while i < entries.len()
            invariant
                0 <= i <= entries@.len(),
                self.0.wf(),
                entries@ == spec_found(self.0.quad_tree@, self.0.quad_tree.spec_bounds(), aabb),
                wanted == shape_positions(self.0.common@, entries@),
                found@ == wanted.take(i as int),
                forall|k: int| 0 <= k < found@.len() ==> (#[trigger] found@[k]).wf(),
            decreases entries@.len() - i,
        {
            let entity_id = entries[i].1;
            proof {
                self.0.quad_tree.lemma_boxes();
                lemma_found_sound(
                    self.0.quad_tree@,
                    self.0.quad_tree.spec_bounds(),
                    aabb,
                    i as int,
                );
                let at = choose|at: int|
                    0 <= at < self.0.quad_tree@.len() && self.0.quad_tree@[at] == entries@[i as int];
                assert(self.0.quad_tree@[at].1 < self.0.count());
                assert(self.0.common@[entity_id as int].wf());
            }
            let common = self.0.common[entity_id as usize];
            let shape_position = ShapePosition {
                entity_id,
                shape: common.shape,
                position: common.position,
            };
            found.push(shape_position);
            proof {
                assert(wanted.take(i as int + 1) =~= wanted.take(i as int).push(wanted[i as int]));
            }
            i += 1;
        }
        proof {
            assert(wanted.take(i as int) =~= wanted);
        }
        found
    }
}

impl<'a> ForEachShapePosition for DynamicPhysicsShapePositions<'a> {
    open spec fn wf(&self) -> bool {
        self.0.wf()
    }

    open spec fn near(&self, aabb: Aabb) -> Seq<ShapePosition> {
        dynamic_shape_positions(
            self.0.common@,
            self.0.dynamic_physics@,
            spec_found(self.0.quad_tree@, self.0.quad_tree.spec_bounds(), aabb),
        )
    }

    fn for_each(&self, aabb: Aabb) -> (found: Vec<ShapePosition>) {
        let entries = self.0.quad_tree.for_each_intersection(&aabb);
        let mut found: Vec<ShapePosition> = Vec::new();
        let mut i: usize = 0;
        while i < entries.len()
            invariant
                0 <= i <= entries@.len(),
                self.0.wf(),
                entries@ == spec_found(self.0.quad_tree@, self.0.quad_tree.spec_bounds(), aabb),
                found@ == dynamic_shape_positions(
                    self.0.common@,
                    self.0.dynamic_physics@,
                    entries@.take(i as int),
                ),
                forall|k: int| 0 <= k < found@.len() ==> (#[trigger] found@[k]).wf(),
            decreases entries@.len() - i,
        {
            let entity_id = entries[i].1;
            proof {
                self.0.quad_tree.lemma_boxes();
                lemma_found_sound(
                    self.0.quad_tree@,
                    self.0.quad_tree.spec_bounds(),
                    aabb,
                    i as int,
                );
                let at = choose|at: int|
                    0 <= at < self.0.quad_tree@.len() && self.0.quad_tree@[at] == entries@[i as int];
                assert(self.0.quad_tree@[at].1 < self.0.count());
                assert(self.0.common@[entity_id as int].wf());
                let upto = entries@.take(i as int + 1);
                assert(upto.drop_last() =~= entries@.take(i as int));
                assert(upto.last() == entries@[i as int]);
            }
            if self.0.dynamic_physics[entity_id as usize] {
                let common = self.0.common[entity_id as usize];
                let shape_position = ShapePosition {
                    entity_id,
                    shape: common.shape,
                    position: common.position,
                };
                found.push(shape_position);
            }
            i += 1;
        }
        proof {
            assert(entries@.take(i as int) =~= entries@);
        }
        found
    }
}


/// The index that holds the bounding box of every entity.
pub open spec fn index_of(bounds: Bounds, entities: Seq<EntityCommon>) -> Index {
    Index {
        bounds,
        entries: Seq::new(
            entities.len(),
            |i: int| (entities[i].shape.spec_aabb(entities[i].position), i as EntityId),
        ),
    }
}

/// The entity `id` with its shape where it stands.
pub open spec fn shape_position_of(entities: Seq<EntityCommon>, id: int) -> ShapePosition {
    ShapePosition {
        entity_id: id as EntityId,
        shape: entities[id].shape,
        position: entities[id].position,
    }
}

/// Which entities are near a box, as the index tells.
pub open spec fn all_near(entities: Seq<EntityCommon>, index: Index) -> spec_fn(Aabb) -> Seq<
    ShapePosition,
> {
    |aabb: Aabb| shape_positions(entities, spec_found(index.entries, index.bounds, aabb))
}

/// Which dynamic entities are near a box, as the index tells.
pub open spec fn dynamic_near(
    entities: Seq<EntityCommon>,
    dynamic: Seq<bool>,
    index: Index,
) -> spec_fn(Aabb) -> Seq<ShapePosition> {
    |aabb: Aabb|
        dynamic_shape_positions(entities, dynamic, spec_found(index.entries, index.bounds, aabb))
}

/// The velocities after each platform was given its velocity for the tick:
/// the first platform the first of `given`, and so on, each within the
/// limit.
pub open spec fn with_platform_velocities(
    velocities: Seq<Option<Vector2>>,
    platforms: Seq<EntityId>,
    given: Seq<Vector2>,
) -> Seq<Option<Vector2>>
    decreases given.len(),
{
    if given.len() == 0 {
        velocities
    } else {
        let before = with_platform_velocities(velocities, platforms, given.drop_last());
        let k = given.len() - 1;
        if k < platforms.len() && platforms[k] < before.len() {
            before.update(platforms[k] as int, Some(spec_limit_velocity(given.last())))
        } else {
            before
        }
    }
}

/// What the entity `id` stands on.
pub open spec fn standing_on(
    entities: Seq<EntityCommon>,
    index: Index,
    id: int,
) -> Seq<Collision> {
    let mover = shape_position_of(entities, id);
    closest_of(
        collisions_with(
            mover,
            spec_below_test_movement(),
            all_near(entities, index)(mover.spec_movement_aabb(spec_below_test_movement())),
        ),
    )
}

/// The movements that the dynamic entities before `upto` make in a tick,
/// each resolved against the entities as they stand before any of them
/// moves.
pub open spec fn moves_upto(
    entities: Seq<EntityCommon>,
    velocities: Seq<Option<Vector2>>,
    dynamic: Seq<bool>,
    index: Index,
    upto: int,
) -> Seq<(EntityId, Movement)>
    decreases upto,
{
    if upto <= 0 {
        Seq::empty()
    } else {
        let before = moves_upto(entities, velocities, dynamic, index, upto - 1);
        let i = upto - 1;
        match velocities[i] {
            Some(v) => if dynamic[i] {
                before.push(
                    (
                        i as EntityId,
                        resolve_with(all_near(entities, index), shape_position_of(entities, i), v),
                    ),
                )
            } else {
                before
            },
            None => before,
        }
    }
}

/// The entities after each position of `changes` was written back in turn,
/// within the limit for positions.
pub open spec fn with_positions(
    entities: Seq<EntityCommon>,
    changes: Seq<(EntityId, Vector2)>,
) -> Seq<EntityCommon>
    decreases changes.len(),
{
    if changes.len() == 0 {
        entities
    } else {
        let before = with_positions(entities, changes.drop_last());
        let (id, position) = changes.last();
        if id < before.len() {
            before.update(
                id as int,
                EntityCommon { position: spec_confine(position), shape: before[id as int].shape },
            )
        } else {
            before
        }
    }
}

/// The velocities after each velocity of `changes` was written back in
/// turn, within the limit for velocities.
pub open spec fn with_velocities(
    velocities: Seq<Option<Vector2>>,
    changes: Seq<(EntityId, Vector2)>,
) -> Seq<Option<Vector2>>
    decreases changes.len(),
{
    if changes.len() == 0 {
        velocities
    } else {
        let before = with_velocities(velocities, changes.drop_last());
        let (id, velocity) = changes.last();
        if id < before.len() {
            before.update(id as int, Some(spec_limit_velocity(velocity)))
        } else {
            before
        }
    }
}

/// What the static entities before `upto` that have a velocity push away
/// while they move, each against the dynamic entities as they stand before
/// any of them is pushed.
pub open spec fn pushes_upto(
    entities: Seq<EntityCommon>,
    velocities: Seq<Option<Vector2>>,
    dynamic: Seq<bool>,
    statics: Seq<bool>,
    index: Index,
    upto: int,
) -> Seq<(EntityId, Displacement)>
    decreases upto,
{
    if upto <= 0 {
        Seq::empty()
    } else {
        let before = pushes_upto(entities, velocities, dynamic, statics, index, upto - 1);
        let i = upto - 1;
        let mover = shape_position_of(entities, i);
        match velocities[i] {
            Some(v) => if statics[i] {
                before + displacements_among(
                    mover,
                    v,
                    dynamic_near(entities, dynamic, index)(mover.spec_movement_aabb(v)),
                )
            } else {
                before
            },
            None => before,
        }
    }
}

/// Where the static entities before `upto` that have a velocity go in a
/// tick: on by their velocity, whatever stands in the way.
pub open spec fn platform_moves_upto(
    entities: Seq<EntityCommon>,
    velocities: Seq<Option<Vector2>>,
    statics: Seq<bool>,
    upto: int,
) -> Seq<(EntityId, Vector2)>
    decreases upto,
{
    if upto <= 0 {
        Seq::empty()
    } else {
        let before = platform_moves_upto(entities, velocities, statics, upto - 1);
        let i = upto - 1;
        match velocities[i] {
            Some(v) => if statics[i] {
                before.push((i as EntityId, entities[i].position.spec_plus(v)))
            } else {
                before
            },
            None => before,
        }
    }
}

/// The entities and velocities after each push of `pushes` was made in
/// turn: the entity moves by the push, within the limit for positions, and
/// if it has a velocity, that is combined with the velocity it is handed.
pub open spec fn with_displacements(
    entities: Seq<EntityCommon>,
    velocities: Seq<Option<Vector2>>,
    pushes: Seq<(EntityId, Displacement)>,
) -> (Seq<EntityCommon>, Seq<Option<Vector2>>)
    decreases pushes.len(),
{
    if pushes.len() == 0 {
        (entities, velocities)
    } else {
        let (e, v) = with_displacements(entities, velocities, pushes.drop_last());
        let (id, push) = pushes.last();
        let moved = if id < e.len() {
            e.update(
                id as int,
                EntityCommon {
                    position: spec_confine(e[id as int].position.spec_plus(push.movement)),
                    shape: e[id as int].shape,
                },
            )
        } else {
            e
        };
        let sped = if id < v.len() {
            match v[id as int] {
                Some(current) => v.update(
                    id as int,
                    Some(spec_limit_velocity(push.spec_combine_velocity(current))),
                ),
                None => v,
            }
        } else {
            v
        };
        (moved, sped)
    }
}

/// The positions of a list of movements.
pub open spec fn positions_of(moves: Seq<(EntityId, Movement)>) -> Seq<(EntityId, Vector2)> {
    Seq::new(moves.len(), |k: int| (moves[k].0, moves[k].1.position))
}

/// The velocities of a list of movements.
pub open spec fn velocities_of(moves: Seq<(EntityId, Movement)>) -> Seq<(EntityId, Vector2)> {
    Seq::new(moves.len(), |k: int| (moves[k].0, moves[k].1.velocity))
}


/// A game as the contracts see it.
pub struct World {
    pub player_id: Option<EntityId>,
    pub platforms: Seq<EntityId>,
    pub entities: Seq<EntityCommon>,
    pub velocities: Seq<Option<Vector2>>,
    pub dynamic: Seq<bool>,
    pub statics: Seq<bool>,
    pub index: Index,
    pub jumps: Seq<Option<JumpStateMachine>>,
    pub frame_count: u64,
}

/// What the index holds, and the part of the world that it subdivides.
pub struct Index {
    pub bounds: Bounds,
    pub entries: Seq<(Aabb, EntityId)>,
}

/// A game without entities.
pub open spec fn empty_world(bounds: Bounds) -> World {
    World {
        player_id: None,
        platforms: Seq::empty(),
        entities: Seq::empty(),
        velocities: Seq::empty(),
        dynamic: Seq::empty(),
        statics: Seq::empty(),
        index: Index { bounds, entries: Seq::empty() },
        jumps: Seq::empty(),
        frame_count: 0,
    }
}

impl View for GameState {
    type V = World;

    open spec fn view(&self) -> World {
        World {
            player_id: self.player_id,
            platforms: self.moving_platform_ids@,
            entities: self.common@,
            velocities: self.velocity@,
            dynamic: self.dynamic_physics@,
            statics: self.static_physics@,
            index: Index { bounds: self.quad_tree.spec_bounds(), entries: self.quad_tree@ },
            jumps: self.jump@,
            frame_count: self.frame_count,
        }
    }
}

/// A velocity within the limit that the game keeps is short enough for the
/// movement of one tick.
pub proof fn lemma_limited_is_movement(v: Vector2)
    requires
        v.within(VELOCITY_LIMIT as int),
    ensures
        is_movement(v),
{
    lemma_product_bound(v.x as int, v.x as int, VELOCITY_LIMIT as int, VELOCITY_LIMIT as int);
    lemma_product_bound(v.y as int, v.y as int, VELOCITY_LIMIT as int, VELOCITY_LIMIT as int);
    assert(2 * (VELOCITY_LIMIT * VELOCITY_LIMIT) <= MOVEMENT_LIMIT * MOVEMENT_LIMIT)
        by (nonlinear_arith)
        requires
            VELOCITY_LIMIT == 0x8_0000,
            MOVEMENT_LIMIT == 0x10_0000,
    ;
}

impl GameState {
    /// Empties the index and inserts the bounding box of every entity where
    /// it stands now.
    pub fn rebuild_index(&mut self)
        requires
            old(self).wf(),
        ensures
            final(self).wf(),
            final(self)@ == (World {
                index: index_of(old(self)@.index.bounds, old(self)@.entities),
                ..old(self)@
            }),
    {
        self.quad_tree.clear();
        let mut i: usize = 0;
        while i < self.common.len()
            invariant
                0 <= i <= self.common@.len(),
                self@ == (World { index: self@.index, ..old(self)@ }),
                self@.index.bounds == old(self)@.index.bounds,
                self.entity_id_allocator.spec_next() == self.count(),
                old(self).wf(),
                self.quad_tree.wf(),
                self.quad_tree@ == index_of(self@.index.bounds, self.common@).entries.take(i as int),
            decreases self.common@.len() - i,
        {
            let common = self.common[i];
            assert(self.common@[i as int].wf());
            let ghost before = self.quad_tree@;
            self.quad_tree.insert(common.aabb(), i as EntityId);
            proof {
                let all = index_of(self@.index.bounds, self.common@).entries;
                assert(all.take(i as int + 1) =~= all.take(i as int).push(all[i as int]));
            }
            i += 1;
        }
        proof {
            let all = index_of(self@.index.bounds, self.common@).entries;
            assert(all.take(i as int) =~= all);
            assert forall|k: int| 0 <= k < self.quad_tree@.len() implies (
            #[trigger] self.quad_tree@[k]).1 < self.count() by {
                assert(self.quad_tree@[k] == all[k]);
            }
        }
    }

    /// Gives each platform that moves its velocity for the tick.
    pub fn set_platform_velocities(&mut self, given: &Vec<Vector2>)
        requires
            old(self).wf(),
        ensures
            final(self).wf(),
            final(self)@ == (World {
                velocities: with_platform_velocities(
                    old(self)@.velocities,
                    old(self)@.platforms,
                    given@,
                ),
                ..old(self)@
            }),
    {
        let mut k: usize = 0;
        while k < given.len()
            invariant
                0 <= k <= given@.len(),
                self.wf(),
                self@ == (World { velocities: self.velocity@, ..old(self)@ }),
                self.velocity@ == with_platform_velocities(
                    old(self)@.velocities,
                    old(self)@.platforms,
                    given@.take(k as int),
                ),
            decreases given@.len() - k,
        {
            proof {
                let upto = given@.take(k as int + 1);
                assert(upto.drop_last() =~= given@.take(k as int));
                assert(upto.last() == given@[k as int]);
            }
            if k < self.moving_platform_ids.len() {
                let id = self.moving_platform_ids[k];
                if (id as usize) < self.velocity.len() {
                    self.velocity[id as usize] = Some(limit_velocity(given[k]));
                }
            }
            k += 1;
        }
        proof {
            assert(given@.take(k as int) =~= given@);
        }
    }
}


/// What the index of a game reports is what the contracts call near.
pub proof fn lemma_all_near(state: &GameState)
    ensures
        near_of(&AllShapePositions(state)) == all_near(state.common@, state@.index),
{
    assert(near_of(&AllShapePositions(state)) =~= all_near(state.common@, state@.index));
}

/// The player's jump after a tick.
pub open spec fn player_jump_after(world: World, jump_count: Option<u64>) -> JumpStateMachine {
    let player = world.player_id->0 as int;
    world.jumps[player]->0.after_step(
        standing_on(world.entities, world.index, player).len() > 0,
        jump_count,
    )
}

/// The velocities after the player's velocity was brought up to date: a
/// player that has a velocity gets the one that the input, the jump and
/// what it stands on ask for, within the limit.
pub open spec fn player_velocities_after(
    world: World,
    jump_count: Option<u64>,
    input_movement: Vector2,
) -> Seq<Option<Vector2>> {
    let player = world.player_id->0 as int;
    match world.velocities[player] {
        Some(current) => world.velocities.update(
            player,
            Some(
                spec_limit_velocity(
                    spec_update_player_velocity(
                        current,
                        input_movement,
                        spec_max_velocity(
                            standing_on(world.entities, world.index, player),
                            world.velocities,
                        ),
                        player_jump_after(world, jump_count),
                    ),
                ),
            ),
        ),
        None => world.velocities,
    }
}

impl GameState {
    /// There is a player, it can jump, and its jump has not lasted for
    /// longer than can be counted.
    pub open spec fn has_player(&self) -> bool {
        &&& self.player_id matches Some(player)
        &&& player < self.jump@.len()
        &&& self.jump@[player as int] matches Some(jump)
        &&& (jump matches JumpStateMachine::JumpingForFrames(n) ==> n < u64::MAX)
    }

    /// Lets the player's jump take its step and brings the player's
    /// velocity up to date.
    pub fn update_player(&mut self, input_model: &InputModel, ctx: &mut MovementContext)
        requires
            old(self).wf(),
            old(self).has_player(),
            input_model.wf(),
        ensures
            final(self).wf(),
            final(self)@ == (World {
                jumps: old(self)@.jumps.update(
                    old(self)@.player_id->0 as int,
                    Some(player_jump_after(old(self)@, input_model.spec_jump_count())),
                ),
                velocities: player_velocities_after(
                    old(self)@,
                    input_model.spec_jump_count(),
                    input_model.spec_movement(),
                ),
                ..old(self)@
            }),
    {
        let player_id = self.player_id.unwrap();
        let player = player_id as usize;
        let player_common = self.common[player];
        assert(self.common@[player as int].wf());
        let player_shape_position = ShapePosition {
            entity_id: player_id,
            position: player_common.position,
            shape: player_common.shape,
        };
        let collisions_below_player = ctx.collisions_below(
            player_shape_position,
            &AllShapePositions(self),
        );
        let mut jump = self.jump[player].unwrap();
        jump.step(collisions_below_player.can_jump(), input_model);
        let max_platform_velocity = collisions_below_player.max_velocity(&self.velocity);
        proof {
            let below = standing_on(self.common@, self@.index, player as int);
            assert(collisions_below_player@ == below);
            crate::movement::lemma_max_velocity_is_kept(
                below,
                self.velocity@,
                VELOCITY_LIMIT as int,
            );
        }
        self.jump[player] = Some(jump);
        match self.velocity[player] {
            Some(velocity) => {
                assert(self.velocity@[player as int] == Some(velocity));
                let updated = update_player_velocity(
                    velocity,
                    input_model,
                    max_platform_velocity,
                    &jump,
                );
                self.velocity[player] = Some(limit_velocity(updated));
            },
            None => {},
        }
    }

    /// Resolves the movement of every dynamic entity that has a velocity
    /// against the entities as they stand, and notes where each ends up and
    /// what velocity it realised.
    pub fn collect_moves(&self, changes: &mut GameStateChanges, ctx: &mut MovementContext)
        requires
            self.wf(),
            old(changes).is_empty(),
        ensures
            final(changes).position@ == positions_of(
                moves_upto(
                    self@.entities,
                    self@.velocities,
                    self@.dynamic,
                    self@.index,
                    self.count(),
                ),
            ),
            final(changes).velocity@ == velocities_of(
                moves_upto(
                    self@.entities,
                    self@.velocities,
                    self@.dynamic,
                    self@.index,
                    self.count(),
                ),
            ),
            final(changes).displacements@.len() == 0,
    {
        let mut i: usize = 0;
        while i < self.common.len()
            invariant
                0 <= i <= self.common@.len(),
                self.wf(),
                changes.displacements@.len() == 0,
                changes.position@ == positions_of(
                    moves_upto(
                        self@.entities,
                        self@.velocities,
                        self@.dynamic,
                        self@.index,
                        i as int,
                    ),
                ),
                changes.velocity@ == velocities_of(
                    moves_upto(
                        self@.entities,
                        self@.velocities,
                        self@.dynamic,
                        self@.index,
                        i as int,
                    ),
                ),
            decreases self.common@.len() - i,
        {
            let ghost before = moves_upto(
                self@.entities,
                self@.velocities,
                self@.dynamic,
                self@.index,
                i as int,
            );
            if self.dynamic_physics[i] {
                match self.velocity[i] {
                    Some(velocity) => {
                        let common = self.common[i];
                        let shape_position = ShapePosition {
                            entity_id: i as EntityId,
                            position: common.position,
                            shape: common.shape,
                        };
                        proof {
                            assert(self.common@[i as int].wf());
                            assert(self.velocity@[i as int] == Some(velocity));
                            lemma_limited_is_movement(velocity);
                            lemma_all_near(self);
                        }
                        let movement = ctx.position_after_allowed_movement(
                            shape_position,
                            velocity,
                            &AllShapePositions(self),
                        );
                        changes.velocity.push((i as EntityId, movement.velocity));
                        changes.position.push((i as EntityId, movement.position));
                        proof {
                            let after = before.push((i as EntityId, movement));
                            assert(changes.position@ =~= positions_of(after));
                            assert(changes.velocity@ =~= velocities_of(after));
                        }
                    },
                    None => {},
                }
            }
            i += 1;
        }
    }

    /// Writes back the positions that `changes` holds, each within the
    /// limit for positions.
    pub fn commit_positions(&mut self, changes: &mut GameStateChanges)
        requires
            old(self).wf(),
        ensures
            final(self).wf(),
            final(self)@ == (World {
                entities: with_positions(old(self)@.entities, old(changes).position@),
                ..old(self)@
            }),
            final(changes).position@.len() == 0,
            final(changes).velocity@ == old(changes).velocity@,
            final(changes).displacements@ == old(changes).displacements@,
    {
        let mut k: usize = 0;
        while k < changes.position.len()
            invariant
                0 <= k <= changes.position@.len(),
                self.wf(),
                changes.position@ == old(changes).position@,
                changes.velocity@ == old(changes).velocity@,
                changes.displacements@ == old(changes).displacements@,
                self@ == (World { entities: self.common@, ..old(self)@ }),
                self.common@ == with_positions(
                    old(self)@.entities,
                    changes.position@.take(k as int),
                ),
            decreases changes.position@.len() - k,
        {
            proof {
                let upto = changes.position@.take(k as int + 1);
                assert(upto.drop_last() =~= changes.position@.take(k as int));
                assert(upto.last() == changes.position@[k as int]);
            }
            let id = changes.position[k].0;
            let position = changes.position[k].1;
            if (id as usize) < self.common.len() {
                let shape = self.common[id as usize].shape;
                assert(self.common@[id as int].wf());
                self.common[id as usize] = EntityCommon { position: confine(position), shape };
            }
            k += 1;
        }
        proof {
            assert(changes.position@.take(k as int) =~= changes.position@);
        }
        changes.position.clear();
    }

    /// Writes back the velocities that `changes` holds, each within the
    /// limit for velocities.
    pub fn commit_velocities(&mut self, changes: &mut GameStateChanges)
        requires
            old(self).wf(),
        ensures
            final(self).wf(),
            final(self)@ == (World {
                velocities: with_velocities(old(self)@.velocities, old(changes).velocity@),
                ..old(self)@
            }),
            final(changes).velocity@.len() == 0,
            final(changes).position@ == old(changes).position@,
            final(changes).displacements@ == old(changes).displacements@,
    {
        let mut k: usize = 0;
        while k < changes.velocity.len()
            invariant
                0 <= k <= changes.velocity@.len(),
                self.wf(),
                changes.position@ == old(changes).position@,
                changes.velocity@ == old(changes).velocity@,
                changes.displacements@ == old(changes).displacements@,
                self@ == (World { velocities: self.velocity@, ..old(self)@ }),
                self.velocity@ == with_velocities(
                    old(self)@.velocities,
                    changes.velocity@.take(k as int),
                ),
            decreases changes.velocity@.len() - k,
        {
            proof {
                let upto = changes.velocity@.take(k as int + 1);
                assert(upto.drop_last() =~= changes.velocity@.take(k as int));
                assert(upto.last() == changes.velocity@[k as int]);
            }
            let id = changes.velocity[k].0;
            let velocity = changes.velocity[k].1;
            if (id as usize) < self.velocity.len() {
                self.velocity[id as usize] = Some(limit_velocity(velocity));
            }
            k += 1;
        }
        proof {
            assert(changes.velocity@.take(k as int) =~= changes.velocity@);
        }
        changes.velocity.clear();
    }
}


/// Every push of `pushes` hands over a velocity within the limit that the
/// game keeps and moves by no more than one movement.
pub open spec fn pushes_limited(pushes: Seq<(EntityId, Displacement)>) -> bool {
    forall|k: int|
        0 <= k < pushes.len() ==> (#[trigger] pushes[k]).1.velocity.within(VELOCITY_LIMIT as int)
            && pushes[k].1.movement.within(MOVEMENT_LIMIT as int)
}

/// The game after one tick, for the player's input and the velocities that
/// the moving platforms are given.
///
/// The platforms get their velocities. The player's jump takes its step and
/// its velocity is brought up to date, both by what it stands on. Every
/// dynamic entity moves as far as it is allowed, all of them resolved
/// against the entities as they stood, and takes the velocity it realised.
/// Then every static entity with a velocity pushes the dynamic entities it
/// meets and moves on by its velocity.
pub open spec fn spec_update(
    world: World,
    jump_count: Option<u64>,
    input_movement: Vector2,
    given: Seq<Vector2>,
) -> World {
    let count = world.entities.len() as int;
    let first_index = index_of(world.index.bounds, world.entities);
    let given_world = World {
        index: first_index,
        velocities: with_platform_velocities(world.velocities, world.platforms, given),
        ..world
    };
    let jumps = world.jumps.update(
        world.player_id->0 as int,
        Some(player_jump_after(given_world, jump_count)),
    );
    let player_velocities = player_velocities_after(given_world, jump_count, input_movement);
    let moves = moves_upto(world.entities, player_velocities, world.dynamic, first_index, count);
    let moved = with_positions(world.entities, positions_of(moves));
    let moved_velocities = with_velocities(player_velocities, velocities_of(moves));
    let second_index = index_of(world.index.bounds, moved);
    let pushes = pushes_upto(
        moved,
        moved_velocities,
        world.dynamic,
        world.statics,
        second_index,
        count,
    );
    let platform_moves = platform_moves_upto(moved, moved_velocities, world.statics, count);
    let pushed = with_displacements(moved, moved_velocities, pushes);
    World {
        entities: with_positions(pushed.0, platform_moves),
        velocities: pushed.1,
        jumps,
        index: second_index,
        frame_count: (world.frame_count + 1) as u64,
        ..world
    }
}

/// Writing positions back changes no shape and keeps the number of
/// entities.
pub proof fn lemma_with_positions_keeps(
    entities: Seq<EntityCommon>,
    changes: Seq<(EntityId, Vector2)>,
)
    ensures
        with_positions(entities, changes).len() == entities.len(),
        forall|i: int|
            0 <= i < entities.len() ==> (#[trigger] with_positions(entities, changes)[i]).shape
                == entities[i].shape,
    decreases changes.len(),
{
    if changes.len() > 0 {
        lemma_with_positions_keeps(entities, changes.drop_last());
    }
}

/// Making pushes changes no shape, keeps the number of entities, and gives
/// no velocity to an entity that had none.
pub proof fn lemma_with_displacements_keeps(
    entities: Seq<EntityCommon>,
    velocities: Seq<Option<Vector2>>,
    pushes: Seq<(EntityId, Displacement)>,
)
    ensures
        with_displacements(entities, velocities, pushes).0.len() == entities.len(),
        with_displacements(entities, velocities, pushes).1.len() == velocities.len(),
        forall|i: int|
            0 <= i < entities.len() ==> (#[trigger] with_displacements(
                entities,
                velocities,
                pushes,
            ).0[i]).shape == entities[i].shape,
        forall|i: int|
            0 <= i < velocities.len() ==> ((#[trigger] with_displacements(
                entities,
                velocities,
                pushes,
            ).1[i]) is Some) == (velocities[i] is Some),
    decreases pushes.len(),
{
    if pushes.len() > 0 {
        lemma_with_displacements_keeps(entities, velocities, pushes.drop_last());
    }
}

/// A tick neither makes nor removes an entity and changes no shape: it
/// moves what there is.
pub proof fn lemma_update_keeps_shapes(
    world: World,
    jump_count: Option<u64>,
    input_movement: Vector2,
    given: Seq<Vector2>,
)
    ensures
        spec_update(world, jump_count, input_movement, given).entities.len()
            == world.entities.len(),
        forall|i: int|
            0 <= i < world.entities.len() ==> (#[trigger] spec_update(
                world,
                jump_count,
                input_movement,
                given,
            ).entities[i]).shape == world.entities[i].shape,
        spec_update(world, jump_count, input_movement, given).dynamic == world.dynamic,
        spec_update(world, jump_count, input_movement, given).statics == world.statics,
        spec_update(world, jump_count, input_movement, given).platforms == world.platforms,
        spec_update(world, jump_count, input_movement, given).player_id == world.player_id,
{
    let count = world.entities.len() as int;
    let first_index = index_of(world.index.bounds, world.entities);
    let given_world = World {
        index: first_index,
        velocities: with_platform_velocities(world.velocities, world.platforms, given),
        ..world
    };
    let player_velocities = player_velocities_after(given_world, jump_count, input_movement);
    let moves = moves_upto(world.entities, player_velocities, world.dynamic, first_index, count);
    let moved = with_positions(world.entities, positions_of(moves));
    let moved_velocities = with_velocities(player_velocities, velocities_of(moves));
    let second_index = index_of(world.index.bounds, moved);
    let pushes = pushes_upto(
        moved,
        moved_velocities,
        world.dynamic,
        world.statics,
        second_index,
        count,
    );
    let platform_moves = platform_moves_upto(moved, moved_velocities, world.statics, count);
    let pushed = with_displacements(moved, moved_velocities, pushes);
    lemma_with_positions_keeps(world.entities, positions_of(moves));
    lemma_with_displacements_keeps(moved, moved_velocities, pushes);
    lemma_with_positions_keeps(pushed.0, platform_moves);
}

impl GameState {
    /// Notes what every static entity that has a velocity pushes away while
    /// it moves, and where it goes itself.
    pub fn collect_displacements(&self, changes: &mut GameStateChanges, ctx: &mut MovementContext)
        requires
            self.wf(),
            old(changes).is_empty(),
        ensures
            final(changes).displacements@ == pushes_upto(
                self@.entities,
                self@.velocities,
                self@.dynamic,
                self@.statics,
                self@.index,
                self.count(),
            ),
            final(changes).position@ == platform_moves_upto(
                self@.entities,
                self@.velocities,
                self@.statics,
                self.count(),
            ),
            final(changes).velocity@.len() == 0,
            pushes_limited(final(changes).displacements@),
    {
        let mut i: usize = 0;
        while i < self.common.len()
            invariant
                0 <= i <= self.common@.len(),
                self.wf(),
                changes.velocity@.len() == 0,
                pushes_limited(changes.displacements@),
                changes.displacements@ == pushes_upto(
                    self@.entities,
                    self@.velocities,
                    self@.dynamic,
                    self@.statics,
                    self@.index,
                    i as int,
                ),
                changes.position@ == platform_moves_upto(
                    self@.entities,
                    self@.velocities,
                    self@.statics,
                    i as int,
                ),
            decreases self.common@.len() - i,
        {
            if self.static_physics[i] {
                match self.velocity[i] {
                    Some(velocity) => {
                        let common = self.common[i];
                        let shape_position = ShapePosition {
                            entity_id: i as EntityId,
                            position: common.position,
                            shape: common.shape,
                        };
                        proof {
                            assert(self.common@[i as int].wf());
                            assert(self.velocity@[i as int] == Some(velocity));
                            lemma_limited_is_movement(velocity);
                        }
                        let ghost before = changes.displacements@;
                        ctx.displacement_after_movement(
                            shape_position,
                            velocity,
                            &DynamicPhysicsShapePositions(self),
                            &mut changes.displacements,
                        );
                        proof {
                            assert forall|k: int|
                                0 <= k < changes.displacements@.len() implies (
                            #[trigger] changes.displacements@[k]).1.velocity.within(
                                VELOCITY_LIMIT as int,
                            ) && changes.displacements@[k].1.movement.within(
                                MOVEMENT_LIMIT as int,
                            ) by {
                                if k < before.len() {
                                    assert(changes.displacements@[k] == before[k]);
                                } else {
                                    assert(crate::movement::pushed_by(
                                        changes.displacements@[k],
                                        velocity,
                                    ));
                                }
                            }
                        }
                        changes.position.push((i as EntityId, common.position.plus(velocity)));
                    },
                    None => {},
                }
            }
            i += 1;
        }
    }

    /// Makes the pushes that `changes` holds: each pushed entity moves by
    /// the push, and its velocity is combined with the one it is handed.
    pub fn commit_displacements(&mut self, changes: &mut GameStateChanges)
        requires
            old(self).wf(),
            pushes_limited(old(changes).displacements@),
        ensures
            final(self).wf(),
            final(self)@ == (World {
                entities: with_displacements(
                    old(self)@.entities,
                    old(self)@.velocities,
                    old(changes).displacements@,
                ).0,
                velocities: with_displacements(
                    old(self)@.entities,
                    old(self)@.velocities,
                    old(changes).displacements@,
                ).1,
                ..old(self)@
            }),
            final(changes).displacements@.len() == 0,
            final(changes).position@ == old(changes).position@,
            final(changes).velocity@ == old(changes).velocity@,
    {
        let mut k: usize = 0;
        while k < changes.displacements.len()
            invariant
                0 <= k <= changes.displacements@.len(),
                self.wf(),
                pushes_limited(changes.displacements@),
                changes.position@ == old(changes).position@,
                changes.velocity@ == old(changes).velocity@,
                changes.displacements@ == old(changes).displacements@,
                self@ == (World {
                    entities: self.common@,
                    velocities: self.velocity@,
                    ..old(self)@
                }),
                (self.common@, self.velocity@) == with_displacements(
                    old(self)@.entities,
                    old(self)@.velocities,
                    changes.displacements@.take(k as int),
                ),
            decreases changes.displacements@.len() - k,
        {
            proof {
                let upto = changes.displacements@.take(k as int + 1);
                assert(upto.drop_last() =~= changes.displacements@.take(k as int));
                assert(upto.last() == changes.displacements@[k as int]);
            }
            let id = changes.displacements[k].0;
            let displacement = changes.displacements[k].1;
            assert(changes.displacements@[k as int].1.movement.within(MOVEMENT_LIMIT as int));
            if (id as usize) < self.common.len() {
                let common = self.common[id as usize];
                assert(self.common@[id as int].wf());
                self.common[id as usize] = EntityCommon {
                    position: confine(common.position.plus(displacement.movement)),
                    shape: common.shape,
                };
            }
            if (id as usize) < self.velocity.len() {
                match self.velocity[id as usize] {
                    Some(velocity) => {
                        assert(self.velocity@[id as int] == Some(velocity));
                        self.velocity[id as usize] = Some(
                            limit_velocity(displacement.combine_velocity(velocity)),
                        );
                    },
                    None => {},
                }
            }
            k += 1;
        }
        proof {
            assert(changes.displacements@.take(k as int) =~= changes.displacements@);
        }
        changes.displacements.clear();
    }

    /// One tick of the game, for the player's input and the velocities that
    /// the moving platforms are given for it.
    pub fn update(
        &mut self,
        input_model: &InputModel,
        platform_velocities: &Vec<Vector2>,
        changes: &mut GameStateChanges,
        movement_context: &mut MovementContext,
    )
        requires
            old(self).wf(),
            old(self).has_player(),
            old(self).frame_count < u64::MAX,
            input_model.wf(),
            old(changes).is_empty(),
        ensures
            final(self).wf(),
            final(changes).is_empty(),
            final(self)@ == spec_update(
                old(self)@,
                input_model.spec_jump_count(),
                input_model.spec_movement(),
                platform_velocities@,
            ),
    {
        self.rebuild_index();
        self.set_platform_velocities(platform_velocities);
        self.update_player(input_model, movement_context);
        self.collect_moves(changes, movement_context);
        self.commit_positions(changes);
        self.commit_velocities(changes);
        proof {
            lemma_with_positions_keeps(
                old(self)@.entities,
                positions_of(
                    moves_upto(
                        old(self)@.entities,
                        player_velocities_after(
                            World {
                                index: index_of(old(self)@.index.bounds, old(self)@.entities),
                                velocities: with_platform_velocities(
                                    old(self)@.velocities,
                                    old(self)@.platforms,
                                    platform_velocities@,
                                ),
                                ..old(self)@
                            },
                            input_model.spec_jump_count(),
                            input_model.spec_movement(),
                        ),
                        old(self)@.dynamic,
                        index_of(old(self)@.index.bounds, old(self)@.entities),
                        old(self).count(),
                    ),
                ),
            );
        }
        self.rebuild_index();
        self.collect_displacements(changes, movement_context);
        self.commit_displacements(changes);
        self.commit_positions(changes);
        self.frame_count += 1;
    }
}


/// What is drawn of an entity.
#[derive(Clone, Copy, Debug, PartialEq, Eq, Structural)]
pub struct RenderUpdate {
    pub position: Vector2,
    pub shape: Shape,
}

/// A solid box of the demonstration level, in pixels.
pub open spec fn demo_box(x: int, y: int, w: int, h: int) -> EntityCommon {
    EntityCommon {
        position: Vector2 { x: (x * UNIT) as i64, y: (y * UNIT) as i64 },
        shape: Shape::AxisAlignedRect(
            AxisAlignedRect::spec_new(Vector2 { x: (w * UNIT) as i64, y: (h * UNIT) as i64 }),
        ),
    }
}

/// The box of a character of the demonstration level, in pixels.
pub open spec fn demo_character(x: int, y: int, w: int, h: int) -> EntityCommon {
    EntityCommon {
        position: Vector2 { x: (x * UNIT) as i64, y: (y * UNIT) as i64 },
        shape: Shape::AxisAlignedRect(
            AxisAlignedRect::spec_new_character(
                Vector2 { x: (w * UNIT) as i64, y: (h * UNIT) as i64 },
            ),
        ),
    }
}

/// A platform of the demonstration level that only carries, in pixels.
pub open spec fn demo_floor(x: int, y: int, w: int, h: int) -> EntityCommon {
    EntityCommon {
        position: Vector2 { x: (x * UNIT) as i64, y: (y * UNIT) as i64 },
        shape: Shape::AxisAlignedRect(
            AxisAlignedRect::spec_new_floor_only(
                Vector2 { x: (w * UNIT) as i64, y: (h * UNIT) as i64 },
            ),
        ),
    }
}

/// A segment of the demonstration level that is solid on both sides, in
/// pixels.
pub open spec fn demo_segment(x: int, y: int, x1: int, y1: int, x2: int, y2: int) -> EntityCommon {
    EntityCommon {
        position: Vector2 { x: (x * UNIT) as i64, y: (y * UNIT) as i64 },
        shape: Shape::LineSegment(
            LineSegment {
                start: Vector2 { x: (x1 * UNIT) as i64, y: (y1 * UNIT) as i64 },
                end: Vector2 { x: (x2 * UNIT) as i64, y: (y2 * UNIT) as i64 },
                solid_side: SolidSide::Both,
            },
        ),
    }
}

/// The roles in the demonstration level: the player alone is dynamic and
/// can jump, the three moving platforms are static, and these four are at
/// rest while nothing else has a velocity.
pub open spec fn demo_roles(world: World) -> bool {
    forall|i: int|
        0 <= i < 19 ==> {
            &&& (#[trigger] world.dynamic[i]) == (i == 0)
            &&& world.statics[i] == (i == 1 || i == 2 || i == 18)
            &&& world.jumps[i] == (if i == 0 {
                Some(JumpStateMachine::NotJumping)
            } else {
                None
            })
            &&& world.velocities[i] == (if i == 0 || i == 1 || i == 2 || i == 18 {
                Some(Vector2 { x: 0, y: 0 })
            } else {
                None
            })
        }
}

/// The entities of the demonstration level: the player first.
pub open spec fn demo_entities() -> Seq<EntityCommon> {
    seq![
        demo_character(550, 436, 32, 64),
        demo_box(200, 350, 128, 32),
        demo_segment(700, 450, 0, 32, 128, 0),
        demo_box(700, 200, 32, 64),
        demo_box(50, 200, 400, 20),
        demo_floor(150, 250, 500, 20),
        demo_box(50, 450, 100, 20),
        demo_box(50, 500, 700, 20),
        demo_box(450, 499, 20, 20),
        demo_box(600, 498, 20, 20),
        demo_box(620, 496, 20, 20),
        demo_box(640, 492, 20, 20),
        demo_box(760, 500, 20, 20),
        demo_box(813, 500, 20, 20),
        demo_segment(20, 20, 0, 0, 50, 100),
        demo_segment(200, 20, 0, 0, 300, 200),
        demo_segment(200, 20, 0, 120, 300, 200),
        demo_segment(900, 200, 0, 0, -300, 200),
        demo_segment(300, 472, 0, 0, 32, 32),
    ]
}

fn make_box(x: i64, y: i64, w: i64, h: i64) -> (e: EntityCommon)
    requires
        0 <= x <= 1000,
        0 <= y <= 1000,
        0 <= w <= 1000,
        0 <= h <= 1000,
    ensures
        e == demo_box(x as int, y as int, w as int, h as int),
        e.wf(),
{
    EntityCommon::new(
        Vector2::new(x * UNIT, y * UNIT),
        Shape::AxisAlignedRect(AxisAlignedRect::new(Vector2::new(w * UNIT, h * UNIT))),
    )
}

fn make_character(x: i64, y: i64, w: i64, h: i64) -> (e: EntityCommon)
    requires
        0 <= x <= 1000,
        0 <= y <= 1000,
        0 <= w <= 1000,
        0 <= h <= 1000,
    ensures
        e == demo_character(x as int, y as int, w as int, h as int),
        e.wf(),
{
    EntityCommon::new(
        Vector2::new(x * UNIT, y * UNIT),
        Shape::AxisAlignedRect(AxisAlignedRect::new_character(Vector2::new(w * UNIT, h * UNIT))),
    )
}

fn make_floor(x: i64, y: i64, w: i64, h: i64) -> (e: EntityCommon)
    requires
        0 <= x <= 1000,
        0 <= y <= 1000,
        0 <= w <= 1000,
        0 <= h <= 1000,
    ensures
        e == demo_floor(x as int, y as int, w as int, h as int),
        e.wf(),
{
    EntityCommon::new(
        Vector2::new(x * UNIT, y * UNIT),
        Shape::AxisAlignedRect(AxisAlignedRect::new_floor_only(Vector2::new(w * UNIT, h * UNIT))),
    )
}

fn make_segment(x: i64, y: i64, x1: i64, y1: i64, x2: i64, y2: i64) -> (e: EntityCommon)
    requires
        0 <= x <= 1000,
        0 <= y <= 1000,
        -1000 <= x1 <= 1000,
        -1000 <= y1 <= 1000,
        -1000 <= x2 <= 1000,
        -1000 <= y2 <= 1000,
    ensures
        e == demo_segment(x as int, y as int, x1 as int, y1 as int, x2 as int, y2 as int),
        e.wf(),
{
    EntityCommon::new(
        Vector2::new(x * UNIT, y * UNIT),
        Shape::LineSegment(
            LineSegment::new_both_solid(
                Vector2::new(x1 * UNIT, y1 * UNIT),
                Vector2::new(x2 * UNIT, y2 * UNIT),
            ),
        ),
    )
}

impl GameState {
    /// What is drawn: every entity's position and shape, in the order of
    /// the identifiers.
    pub fn render_updates(&self) -> (r: Vec<RenderUpdate>)
        ensures
            r@.len() == self.count(),
            forall|i: int|
                0 <= i < r@.len() ==> (#[trigger] r@[i]) == (RenderUpdate {
                    position: self@.entities[i].position,
                    shape: self@.entities[i].shape,
                }),
    {
        let mut out: Vec<RenderUpdate> = Vec::new();
        let mut i: usize = 0;
        while i < self.common.len()
            invariant
                0 <= i <= self.common@.len(),
                out@.len() == i,
                forall|k: int|
                    0 <= k < out@.len() ==> (#[trigger] out@[k]) == (RenderUpdate {
                        position: self.common@[k].position,
                        shape: self.common@[k].shape,
                    }),
            decreases self.common@.len() - i,
        {
            let common = self.common[i];
            out.push(RenderUpdate { position: common.position, shape: common.shape });
            i += 1;
        }
        out
    }

    /// Sets up the demonstration level: the player, who is dynamic and at
    /// rest, and eighteen solids, of which the first, the second and the
    /// last are platforms that move. Every solid is in the index.
    pub fn init_demo(&mut self)
        requires
            old(self).wf(),
        ensures
            final(self).wf(),
            final(self).has_player(),
            final(self)@.entities == demo_entities(),
            final(self)@.player_id == Some(0u32),
            final(self)@.platforms == seq![1u32, 2u32, 18u32],
            final(self)@.frame_count == 0,
            final(self)@.index == (Index {
                bounds: old(self)@.index.bounds,
                entries: index_of(old(self)@.index.bounds, demo_entities()).entries.skip(1),
            }),
            demo_roles(final(self)@),
    {
        self.clear();
        let player_id = self.add_common(make_character(550, 436, 32, 64));
        self.set_player(player_id);
        self.set_velocity(player_id, Vector2::zero());
        self.set_dynamic(player_id);
        let platform_id = self.add_static_solid(make_box(200, 350, 128, 32));
        self.add_moving_platform(platform_id);
        let platform_id = self.add_static_solid(make_segment(700, 450, 0, 32, 128, 0));
        self.add_moving_platform(platform_id);
        self.add_static_solid(make_box(700, 200, 32, 64));
        self.add_static_solid(make_box(50, 200, 400, 20));
        self.add_static_solid(make_floor(150, 250, 500, 20));
        self.add_static_solid(make_box(50, 450, 100, 20));
        self.add_static_solid(make_box(50, 500, 700, 20));
        self.add_static_solid(make_box(450, 499, 20, 20));
        self.add_static_solid(make_box(600, 498, 20, 20));
        self.add_static_solid(make_box(620, 496, 20, 20));
        self.add_static_solid(make_box(640, 492, 20, 20));
        self.add_static_solid(make_box(760, 500, 20, 20));
        self.add_static_solid(make_box(813, 500, 20, 20));
        self.add_static_solid(make_segment(20, 20, 0, 0, 50, 100));
        self.add_static_solid(make_segment(200, 20, 0, 0, 300, 200));
        self.add_static_solid(make_segment(200, 20, 0, 120, 300, 200));
        self.add_static_solid(make_segment(900, 200, 0, 0, -300, 200));
        let platform_id = self.add_static_solid(make_segment(300, 472, 0, 0, 32, 32));
        self.add_moving_platform(platform_id);
        proof {
            assert(self@.entities =~= demo_entities());
            assert(self@.platforms =~= seq![1u32, 2u32, 18u32]);
            let wanted = index_of(old(self)@.index.bounds, demo_entities()).entries.skip(1);
            assert(self@.index.entries.len() == 18);
            assert(wanted.len() == 18);
            assert forall|i: int| 0 <= i < 18 implies (#[trigger] self@.index.entries[i])
                == wanted[i] by {
                assert(wanted[i] == index_of(old(self)@.index.bounds, demo_entities()).entries[i + 1]);
                assert(self@.entities[i + 1] == demo_entities()[i + 1]);
            }
            assert(self@.index.entries =~= wanted);
        }
    }
}


/// Where the entity `i` stands after the dynamic entities before `upto`
/// have moved: a dynamic entity among them that has a velocity stands where
/// its movement, resolved against the entities as they stood, has taken it,
/// within the limit for positions; every other entity stands where it
/// stood.
pub open spec fn moved_entity(
    entities: Seq<EntityCommon>,
    velocities: Seq<Option<Vector2>>,
    dynamic: Seq<bool>,
    index: Index,
    upto: int,
    i: int,
) -> EntityCommon {
    match velocities[i] {
        Some(v) => if i < upto && dynamic[i] {
            EntityCommon {
                position: spec_confine(
                    resolve_with(
                        all_near(entities, index),
                        shape_position_of(entities, i),
                        v,
                    ).position,
                ),
                shape: entities[i].shape,
            }
        } else {
            entities[i]
        },
        None => entities[i],
    }
}

/// The velocity of the entity `i` after the dynamic entities before `upto`
/// have moved: a dynamic entity among them that has a velocity has the
/// velocity that its movement realised, within the limit for velocities.
pub open spec fn moved_velocity(
    entities: Seq<EntityCommon>,
    velocities: Seq<Option<Vector2>>,
    dynamic: Seq<bool>,
    index: Index,
    upto: int,
    i: int,
) -> Option<Vector2> {
    match velocities[i] {
        Some(v) => if i < upto && dynamic[i] {
            Some(
                spec_limit_velocity(
                    resolve_with(
                        all_near(entities, index),
                        shape_position_of(entities, i),
                        v,
                    ).velocity,
                ),
            )
        } else {
            velocities[i]
        },
        None => None,
    }
}

/// Writing back what the dynamic entities have moved gives each of them
/// its own result, and leaves every other entity as it was: no entity sees
/// another one's movement of the same tick.
pub proof fn lemma_moves_entity_by_entity(
    entities: Seq<EntityCommon>,
    velocities: Seq<Option<Vector2>>,
    dynamic: Seq<bool>,
    index: Index,
    upto: int,
)
    requires
        0 <= upto <= entities.len(),
        entities.len() == velocities.len(),
        entities.len() == dynamic.len(),
        entities.len() <= u32::MAX,
    ensures
        with_positions(
            entities,
            positions_of(moves_upto(entities, velocities, dynamic, index, upto)),
        ) == Seq::new(
            entities.len(),
            |i: int| moved_entity(entities, velocities, dynamic, index, upto, i),
        ),
        with_velocities(
            velocities,
            velocities_of(moves_upto(entities, velocities, dynamic, index, upto)),
        ) == Seq::new(
            velocities.len(),
            |i: int| moved_velocity(entities, velocities, dynamic, index, upto, i),
        ),
    decreases upto,
{
    let moves = moves_upto(entities, velocities, dynamic, index, upto);
    let placed = with_positions(entities, positions_of(moves));
    let sped = with_velocities(velocities, velocities_of(moves));
    let wanted = Seq::new(
        entities.len(),
        |i: int| moved_entity(entities, velocities, dynamic, index, upto, i),
    );
    let wanted_velocities = Seq::new(
        velocities.len(),
        |i: int| moved_velocity(entities, velocities, dynamic, index, upto, i),
    );
    if upto == 0 {
        assert(moves =~= Seq::<(EntityId, Movement)>::empty());
        assert(positions_of(moves) =~= Seq::<(EntityId, Vector2)>::empty());
        assert(velocities_of(moves) =~= Seq::<(EntityId, Vector2)>::empty());
        assert(placed == entities);
        assert(sped == velocities);
        assert forall|j: int| 0 <= j < entities.len() implies placed[j] == wanted[j] by {}
        assert forall|j: int| 0 <= j < velocities.len() implies sped[j]
            == wanted_velocities[j] by {}
        assert(placed =~= wanted);
        assert(sped =~= wanted_velocities);
    } else {
        let i = upto - 1;
        let before = moves_upto(entities, velocities, dynamic, index, i);
        let placed_before = with_positions(entities, positions_of(before));
        let sped_before = with_velocities(velocities, velocities_of(before));
        lemma_moves_entity_by_entity(entities, velocities, dynamic, index, i);
        assert(placed_before.len() == entities.len());
        assert(sped_before.len() == velocities.len());
        assert forall|j: int| 0 <= j < entities.len() implies placed_before[j] == moved_entity(
            entities,
            velocities,
            dynamic,
            index,
            i,
            j,
        ) by {}
        assert forall|j: int| 0 <= j < velocities.len() implies sped_before[j] == moved_velocity(
            entities,
            velocities,
            dynamic,
            index,
            i,
            j,
        ) by {}
        if dynamic[i] && velocities[i] is Some {
            let m = resolve_with(
                all_near(entities, index),
                shape_position_of(entities, i),
                velocities[i]->0,
            );
            assert(moves == before.push((i as EntityId, m)));
            assert(positions_of(moves).drop_last() =~= positions_of(before));
            assert(positions_of(moves).last() == (i as EntityId, m.position));
            assert(velocities_of(moves).drop_last() =~= velocities_of(before));
            assert(velocities_of(moves).last() == (i as EntityId, m.velocity));
            assert(placed == placed_before.update(
                i,
                EntityCommon { position: spec_confine(m.position), shape: placed_before[i].shape },
            ));
            assert(sped == sped_before.update(i, Some(spec_limit_velocity(m.velocity))));
            assert forall|j: int| 0 <= j < entities.len() implies placed[j] == wanted[j] by {
                assert(placed_before[j] == moved_entity(
                    entities,
                    velocities,
                    dynamic,
                    index,
                    i,
                    j,
                ));
            }
            assert forall|j: int| 0 <= j < velocities.len() implies sped[j]
                == wanted_velocities[j] by {
                assert(sped_before[j] == moved_velocity(
                    entities,
                    velocities,
                    dynamic,
                    index,
                    i,
                    j,
                ));
            }
        } else {
            assert(moves == before);
            assert forall|j: int| 0 <= j < entities.len() implies placed[j] == wanted[j] by {
                assert(placed_before[j] == moved_entity(
                    entities,
                    velocities,
                    dynamic,
                    index,
                    i,
                    j,
                ));
            }
            assert forall|j: int| 0 <= j < velocities.len() implies sped[j]
                == wanted_velocities[j] by {
                assert(sped_before[j] == moved_velocity(
                    entities,
                    velocities,
                    dynamic,
                    index,
                    i,
                    j,
                ));
            }
        }
        assert(placed =~= wanted);
        assert(sped =~= wanted_velocities);
    }
}

} // verus!

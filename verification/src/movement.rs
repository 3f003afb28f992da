//! Resolving the movement of one entity against what stands around it: the
//! nearest contacts along a movement, the state machine that advances,
//! slides and bumps until the movement is used up, what a moving platform
//! pushes, and what an entity stands on.

use vstd::prelude::*;
use crate::aabb::Aabb;
use crate::best_of::MultiBest;
use crate::best_of::SingleBest;
use crate::bump::max_bump;
use crate::bump::spec_max_bump;
use crate::best_of::all_wf;
use crate::best_of::closest_of;
use crate::best_of::lemma_after_all_concat;
use crate::best_of::nearest_of;
use crate::collide::movement_collision_test;
use crate::collide::movement_collisions;
use crate::collide::tagged;
use crate::collide::Collide;
use crate::collide::Collision;
use crate::left_solid_edge::is_movement;
use crate::left_solid_edge::lemma_movement_within;
use crate::vector::lemma_product_bound;
use crate::shape::Shape;
use crate::shape::ShapePosition;
use crate::vector::Vector2;
use crate::vector::MOVEMENT_LIMIT;
use crate::vector::POSITION_LIMIT;
use crate::vector::REACH_LIMIT;

verus! {

pub type EntityId = u32;

/// How many steps the resolution of one movement may take.
pub const MAX_ITERATIONS: u8 = 16;

/// The movement that probes for what an entity stands on: one unit straight
/// down.
pub open spec fn spec_below_test_movement() -> Vector2 {
    Vector2 { x: 0, y: 1 }
}

pub fn below_test_movement() -> (v: Vector2)
    ensures
        v == spec_below_test_movement(),
{
    Vector2 { x: 0, y: 1 }
}

/// Who knows the entities near a box: a spatial index, or a narrower view
/// of one.
pub trait ForEachShapePosition {
    spec fn wf(&self) -> bool;

    /// The entities whose bounding boxes may intersect `aabb`, in the order
    /// in which they are reported.
    spec fn near(&self, aabb: Aabb) -> Seq<ShapePosition>;

    /// Reports the entities whose bounding boxes may intersect `aabb`.
    fn for_each(&self, aabb: Aabb) -> (found: Vec<ShapePosition>)
        requires
            self.wf(),
            aabb.wf(),
        ensures
            found@ == self.near(aabb),
            forall|i: int| 0 <= i < found@.len() ==> (#[trigger] found@[i]).wf(),
    ;
}

/// Where an entity ends up, and the velocity it realised on the way.
#[derive(Clone, Copy, Debug, PartialEq, Eq, Structural)]
pub struct Movement {
    pub position: Vector2,
    pub velocity: Vector2,
}

/// How far a moving platform pushes an entity, and the velocity it hands
/// to it.
#[derive(Clone, Copy, Debug, PartialEq, Eq, Structural)]
pub struct Displacement {
    pub movement: Vector2,
    pub velocity: Vector2,
}

/// Every contact of `shape_position`, moving by `movement`, with each of
/// `others` that is another entity.
pub open spec fn collisions_with(
    shape_position: ShapePosition,
    movement: Vector2,
    others: Seq<ShapePosition>,
) -> Seq<Collision>
    decreases others.len(),
{
    if others.len() == 0 {
        Seq::empty()
    } else {
        let before = collisions_with(shape_position, movement, others.drop_last());
        let other = others.last();
        if other.entity_id != shape_position.entity_id {
            before + tagged(
                other.entity_id,
                movement_collisions(
                    &shape_position.shape,
                    shape_position.position,
                    &other.shape,
                    other.position,
                    movement,
                ),
            )
        } else {
            before
        }
    }
}

/// What `env` reports near a box, as a function of the box.
pub open spec fn near_of<F: ForEachShapePosition>(env: &F) -> spec_fn(Aabb) -> Seq<ShapePosition> {
    |aabb: Aabb| env.near(aabb)
}

/// Every contact of `shape_position`, moving by `movement`, with the other
/// entities that `env` reports near the box that the movement sweeps.
pub open spec fn candidates<F: ForEachShapePosition>(
    env: &F,
    shape_position: ShapePosition,
    movement: Vector2,
) -> Seq<Collision> {
    collisions_with(
        shape_position,
        movement,
        env.near(shape_position.spec_movement_aabb(movement)),
    )
}

/// The two reducers, kept between queries so that their storage is reused.
pub struct MovementContext {
    closest_collisions: MultiBest,
    nearest_collision: SingleBest,
}

/// The contacts that tie for nearest below an entity.
pub struct CollisionsBelow {
    collisions: Vec<Collision>,
}

/// The velocity that `velocities` holds for the entity `id`.
pub open spec fn velocity_of(velocities: Seq<Option<Vector2>>, id: EntityId) -> Option<Vector2> {
    if id < velocities.len() {
        velocities[id as int]
    } else {
        None
    }
}

/// The longest velocity among those of the entities that were met; the last
/// of them where several are longest, and none where none of the entities
/// has a velocity.
pub open spec fn longest_velocity(
    collisions: Seq<Collision>,
    velocities: Seq<Option<Vector2>>,
) -> Option<Vector2>
    decreases collisions.len(),
{
    if collisions.len() == 0 {
        None
    } else {
        let before = longest_velocity(collisions.drop_last(), velocities);
        match (velocity_of(velocities, collisions.last().stationary_entity_id), before) {
            (None, _) => before,
            (Some(v), None) => Some(v),
            (Some(v), Some(kept)) => if v.spec_magnitude2() >= kept.spec_magnitude2() {
                Some(v)
            } else {
                Some(kept)
            },
        }
    }
}

/// The velocity of what an entity stands on: nothing if it stands on
/// nothing, else the longest of the velocities of what it stands on, or no
/// velocity at all if none of those has one.
pub open spec fn spec_max_velocity(
    below: Seq<Collision>,
    velocities: Seq<Option<Vector2>>,
) -> Option<Vector2> {
    if below.len() == 0 {
        None
    } else {
        match longest_velocity(below, velocities) {
            Some(v) => Some(v),
            None => Some(Vector2 { x: 0, y: 0 }),
        }
    }
}

impl View for CollisionsBelow {
    type V = Seq<Collision>;

    closed spec fn view(&self) -> Seq<Collision> {
        self.collisions@
    }
}

impl CollisionsBelow {
    /// An entity can jump when it stands on something.
    pub fn can_jump(&self) -> (r: bool)
        ensures
            r == (self@.len() > 0),
    {
        self.collisions.len() > 0
    }

    /// The velocity of what the entity stands on, where `velocities` holds
    /// the velocity of entity `id` at index `id`: nothing if it stands on
    /// nothing, else the longest of the velocities of what it stands on, or
    /// no velocity at all if none of those has one.
    pub fn max_velocity(&self, velocities: &Vec<Option<Vector2>>) -> (r: Option<Vector2>)
        ensures
            r == spec_max_velocity(self@, velocities@),
    {
        if self.collisions.len() == 0 {
            return None;
        }
        let mut best: Option<Vector2> = None;
        let mut i: usize = 0;
        while i < self.collisions.len()
            invariant
                0 <= i <= self.collisions@.len(),
                best == longest_velocity(self.collisions@.take(i as int), velocities@),
            decreases self.collisions@.len() - i,
        {
            proof {
                let upto = self.collisions@.take(i as int + 1);
                assert(upto.drop_last() =~= self.collisions@.take(i as int));
                assert(upto.last() == self.collisions@[i as int]);
            }
            let id: usize = self.collisions[i].stationary_entity_id as usize;
            if id < velocities.len() {
                match velocities[id] {
                    None => {},
                    Some(v) => {
                        match best {
                            None => {
                                best = Some(v);
                            },
                            Some(kept) => {
                                if v.magnitude2() >= kept.magnitude2() {
                                    best = Some(v);
                                }
                            },
                        }
                    },
                }
            }
            i += 1;
        }
        proof {
            assert(self.collisions@.take(i as int) =~= self.collisions@);
        }
        match best {
            Some(v) => Some(v),
            None => Some(Vector2::zero()),
        }
    }
}


impl Displacement {
    /// The part of `current_velocity` that runs at right angles to the
    /// velocity handed over, each component rounded toward zero.
    pub open spec fn lateral_component(self, current_velocity: Vector2) -> (int, int) {
        crate::left_solid_edge::projected(
            current_velocity.x as int,
            current_velocity.y as int,
            self.velocity.y as int,
            -self.velocity.x,
        )
    }

    /// The velocity of a pushed entity: the velocity handed over, and what
    /// the entity's own velocity had at right angles to it. An entity that
    /// is handed no velocity keeps its own.
    pub open spec fn spec_combine_velocity(self, current_velocity: Vector2) -> Vector2 {
        if self.velocity.is_zero() {
            current_velocity
        } else {
            Vector2 {
                x: (self.velocity.x + self.lateral_component(current_velocity).0) as i64,
                y: (self.velocity.y + self.lateral_component(current_velocity).1) as i64,
            }
        }
    }

    /// The velocity of a pushed entity whose velocity was `current_velocity`.
    pub fn combine_velocity(&self, current_velocity: Vector2) -> (r: Vector2)
        requires
            self.velocity.within(REACH_LIMIT as int),
            current_velocity.within(REACH_LIMIT as int),
        ensures
            r == self.spec_combine_velocity(current_velocity),
            !self.velocity.is_zero() ==> r.x == self.velocity.x + self.lateral_component(
                current_velocity,
            ).0 && r.y == self.velocity.y + self.lateral_component(current_velocity).1,
    {
        if self.velocity.x == 0 && self.velocity.y == 0 {
            return current_velocity;
        }
        let lateral = Vector2 { x: self.velocity.y, y: -self.velocity.x };
        proof {
            let l: int = REACH_LIMIT as int;
            lemma_product_bound(current_velocity.x as int, lateral.x as int, l, l);
            lemma_product_bound(current_velocity.y as int, lateral.y as int, l, l);
            lemma_product_bound(lateral.x as int, lateral.x as int, l, l);
            lemma_product_bound(lateral.y as int, lateral.y as int, l, l);
            assert(l * l == 0x1000_0000_0000_0000) by (nonlinear_arith)
                requires
                    l == 0x4000_0000,
            ;
            let k: int = current_velocity.x * lateral.x + current_velocity.y * lateral.y;
            lemma_product_bound(lateral.x as int, k, l, 2 * (l * l));
            lemma_product_bound(lateral.y as int, k, l, 2 * (l * l));
            assert(l * (2 * (l * l)) <= 0x1000_0000_0000_0000_0000_0000) by (nonlinear_arith)
                requires
                    l == 0x4000_0000,
            ;
            crate::left_solid_edge::lemma_projection_shrinks(
                current_velocity.x as int,
                current_velocity.y as int,
                lateral.x as int,
                lateral.y as int,
            );
            let p = self.lateral_component(current_velocity);
            let big: int = 2 * l;
            assert(-big <= p.0 <= big && -big <= p.1 <= big) by (nonlinear_arith)
                requires
                    p.0 * p.0 + p.1 * p.1 <= current_velocity.x * current_velocity.x
                        + current_velocity.y * current_velocity.y,
                    -l <= current_velocity.x <= l,
                    -l <= current_velocity.y <= l,
                    big == 2 * l,
                    l >= 0,
            ;
        }
        let n: i128 = lateral.dot(lateral);
        let k: i128 = current_velocity.dot(lateral);
        proof {
            assert(n > 0) by (nonlinear_arith)
                requires
                    n == lateral.x * lateral.x + lateral.y * lateral.y,
                    lateral.x != 0 || lateral.y != 0,
            ;
        }
        let x: i128 = crate::left_solid_edge::divide_toward_zero((lateral.x as i128) * k, n);
        let y: i128 = crate::left_solid_edge::divide_toward_zero((lateral.y as i128) * k, n);
        Vector2 { x: self.velocity.x + (x as i64), y: self.velocity.y + (y as i64) }
    }
}

impl Default for MovementContext {
    fn default() -> (ctx: MovementContext)
        ensures
            ctx.closest() == Seq::<Collision>::empty(),
            ctx.nearest() == None::<Collision>,
    {
        MovementContext::new()
    }
}

impl MovementContext {
    /// The contacts that tie for nearest in the last query.
    pub closed spec fn closest(&self) -> Seq<Collision> {
        self.closest_collisions@
    }

    /// The nearest contact of the last query.
    pub closed spec fn nearest(&self) -> Option<Collision> {
        self.nearest_collision@
    }

    pub fn new() -> (ctx: MovementContext)
        ensures
            ctx.closest() == Seq::<Collision>::empty(),
            ctx.nearest() == None::<Collision>,
    {
        MovementContext { closest_collisions: MultiBest::new(), nearest_collision: SingleBest::new() }
    }

    /// The contacts that tie for nearest in the last query, oldest first.
    pub fn closest_list(&self) -> (r: Vec<Collision>)
        ensures
            r@ == self.closest(),
    {
        self.closest_collisions.iter()
    }

    /// The nearest contact of the last query.
    pub fn nearest_one(&self) -> (r: Option<Collision>)
        ensures
            r == self.nearest(),
    {
        self.nearest_collision.first()
    }

    /// Finds the nearest contacts of `shape_position`, moving by `movement`,
    /// with the other entities that `env` reports near the swept box.
    pub fn closest_collisions<F: ForEachShapePosition>(
        &mut self,
        shape_position: ShapePosition,
        movement: Vector2,
        env: &F,
    )
        requires
            env.wf(),
            shape_position.in_reach(),
            shape_position.position.spec_plus(movement).within(REACH_LIMIT as int),
            is_movement(movement),
        ensures
            final(self).closest() == closest_of(candidates(env, shape_position, movement)),
            final(self).nearest() == nearest_of(candidates(env, shape_position, movement)),
            all_wf(final(self).closest()),
            final(self).nearest() matches Some(c) ==> c.wf(),
    {
        proof {
            lemma_movement_within(movement);
        }
        self.closest_collisions.clear();
        self.nearest_collision.clear();
        let others = env.for_each(shape_position.movement_aabb(movement));
        let mut i: usize = 0;
        while i < others.len()
            invariant
                0 <= i <= others@.len(),
                shape_position.in_reach(),
                is_movement(movement),
                forall|k: int| 0 <= k < others@.len() ==> (#[trigger] others@[k]).wf(),
                self.closest_collisions@ == closest_of(
                    collisions_with(shape_position, movement, others@.take(i as int)),
                ),
                self.nearest_collision@ == nearest_of(
                    collisions_with(shape_position, movement, others@.take(i as int)),
                ),
                all_wf(self.closest_collisions@),
                self.nearest_collision@ matches Some(c) ==> c.wf(),
            decreases others@.len() - i,
        {
            let other = others[i];
            let ghost before = collisions_with(shape_position, movement, others@.take(i as int));
            proof {
                let upto = others@.take(i as int + 1);
                assert(upto.drop_last() =~= others@.take(i as int));
                assert(upto.last() == other);
                assert(others@[i as int].wf());
            }
            if other.entity_id != shape_position.entity_id {
                proof {
                    lemma_after_all_concat(
                        Seq::empty(),
                        None,
                        before,
                        tagged(
                            other.entity_id,
                            movement_collisions(
                                &shape_position.shape,
                                shape_position.position,
                                &other.shape,
                                other.position,
                                movement,
                            ),
                        ),
                    );
                }
                movement_collision_test(
                    &shape_position.shape,
                    shape_position.position,
                    &other.shape,
                    other.position,
                    other.entity_id,
                    movement,
                    &mut self.closest_collisions,
                    &mut self.nearest_collision,
                );
            }
            i += 1;
        }
        proof {
            assert(others@.take(i as int) =~= others@);
        }
    }
}


/// What a movement is resolved against: who is near, and the entity that
/// moves, as it stood before the movement.
pub struct MovementEnv<'a, F: ForEachShapePosition> {
    pub for_each_shape_position: &'a F,
    pub original: ShapePosition,
}

impl<'a, F: ForEachShapePosition> MovementEnv<'a, F> {
    pub open spec fn wf(&self) -> bool {
        &&& self.for_each_shape_position.wf()
        &&& self.original.wf()
    }

    /// The moving entity at `position`.
    pub fn shape_position(&self, position: Vector2) -> (r: ShapePosition)
        ensures
            r == self.original.at(position),
    {
        ShapePosition {
            entity_id: self.original.entity_id,
            shape: self.original.shape,
            position,
        }
    }

    /// Finds the nearest contacts of the moving entity, standing at
    /// `position` and moving by `movement`.
    pub fn closest_collisions(
        &self,
        position: Vector2,
        movement: Vector2,
        ctx: &mut MovementContext,
    )
        requires
            self.wf(),
            position.within(REACH_LIMIT as int),
            position.spec_plus(movement).within(REACH_LIMIT as int),
            is_movement(movement),
        ensures
            final(ctx).closest() == closest_of(
                candidates(self.for_each_shape_position, self.original.at(position), movement),
            ),
            final(ctx).nearest() == nearest_of(
                candidates(self.for_each_shape_position, self.original.at(position), movement),
            ),
            all_wf(final(ctx).closest()),
            final(ctx).nearest() matches Some(c) ==> c.wf(),
    {
        ctx.closest_collisions(self.shape_position(position), movement, self.for_each_shape_position)
    }
}

/// The state of the resolution of one movement: what is left of the
/// movement, where the entity stands, the bump that waits to be tried, what
/// bumps have added to the way so far, and how many steps are left.
#[derive(Clone, Copy, Debug, PartialEq, Eq)]
pub struct MovementStateMachine {
    pub movement: Vector2,
    pub position: Vector2,
    pub bump: Option<Vector2>,
    pub velocity_correction: Vector2,
    pub remaining: u8,
}

impl MovementStateMachine {
    /// The state can be reached from an entity that stood at `start`: each
    /// step taken moved it by no more than one movement.
    pub open spec fn wf(self, start: Vector2) -> bool {
        let used = MAX_ITERATIONS - self.remaining;
        &&& self.remaining <= MAX_ITERATIONS
        &&& start.within(POSITION_LIMIT as int)
        &&& is_movement(self.movement)
        &&& (self.bump matches Some(b) ==> is_movement(b))
        &&& -used * 0x10_0000 <= self.position.x - start.x <= used * 0x10_0000
        &&& -used * 0x10_0000 <= self.position.y - start.y <= used * 0x10_0000
        &&& -used * 0x10_0000 <= self.velocity_correction.x <= used * 0x10_0000
        &&& -used * 0x10_0000 <= self.velocity_correction.y <= used * 0x10_0000
    }

    /// The state before the first step.
    pub open spec fn initial(movement: Vector2, position: Vector2) -> MovementStateMachine {
        MovementStateMachine {
            movement,
            position,
            bump: None,
            velocity_correction: Vector2 { x: 0, y: 0 },
            remaining: MAX_ITERATIONS,
        }
    }

    /// What the next query asks about: the bump that waits, or else the
    /// movement that is left.
    pub open spec fn probe(self) -> Vector2 {
        match self.bump {
            Some(b) => b,
            None => self.movement,
        }
    }

    /// The result for an entity that started at `original_position`: where
    /// it stands, and as its velocity the way it has come without the
    /// bumps.
    pub open spec fn spec_to_movement(self, original_position: Vector2) -> Movement {
        Movement {
            position: self.position,
            velocity: Vector2 {
                x: (self.position.x - original_position.x + self.velocity_correction.x) as i64,
                y: (self.position.y - original_position.y + self.velocity_correction.y) as i64,
            },
        }
    }

    /// The state after one step, and the result if the step was the last,
    /// given the contacts that the step's query found.
    ///
    /// With a bump waiting: any contact along the bump ends the resolution
    /// where the entity stands; without one the bump is made, and taken out
    /// of the velocity. With no bump waiting: without a contact the whole
    /// movement is made and the resolution ends. Otherwise the entity
    /// advances to the nearest contact; if one of the tied contacts asks for
    /// a bump, the longest of them waits for the next step and the rest of
    /// the movement stays as it is, else the rest is turned along the edge
    /// that was met.
    pub open spec fn after_query(
        self,
        original_position: Vector2,
        closest: Seq<Collision>,
        nearest: Option<Collision>,
    ) -> (MovementStateMachine, Option<Movement>) {
        match self.bump {
            Some(b) => if closest.len() > 0 {
                (self, Some(self.spec_to_movement(original_position)))
            } else {
                (
                    MovementStateMachine {
                        movement: self.movement,
                        position: self.position.spec_plus(b),
                        bump: None,
                        velocity_correction: self.velocity_correction.spec_minus(b),
                        remaining: (self.remaining - 1) as u8,
                    },
                    None,
                )
            },
            None => match nearest {
                None => {
                    let moved = MovementStateMachine {
                        movement: self.movement,
                        position: self.position.spec_plus(self.movement),
                        bump: None,
                        velocity_correction: self.velocity_correction,
                        remaining: self.remaining,
                    };
                    (moved, Some(moved.spec_to_movement(original_position)))
                },
                Some(c) => {
                    let contact = c.left_solid_edge_collision;
                    let position = self.position.spec_plus(
                        contact.spec_movement_to_collision(self.movement),
                    );
                    match spec_max_bump(closest) {
                        None => (
                            MovementStateMachine {
                                movement: contact.spec_slide(self.movement),
                                position,
                                bump: None,
                                velocity_correction: self.velocity_correction,
                                remaining: (self.remaining - 1) as u8,
                            },
                            None,
                        ),
                        Some(bump) => (
                            MovementStateMachine {
                                movement: contact.spec_movement_following_collision(self.movement),
                                position,
                                bump: Some(bump),
                                velocity_correction: self.velocity_correction,
                                remaining: (self.remaining - 1) as u8,
                            },
                            None,
                        ),
                    }
                },
            },
        }
    }

    /// The state after one step, and the result if the step was the last,
    /// where `near` tells which entities are near a box. A state with no
    /// steps left ends where it is.
    pub open spec fn spec_step_with(
        self,
        near: spec_fn(Aabb) -> Seq<ShapePosition>,
        original: ShapePosition,
    ) -> (MovementStateMachine, Option<Movement>) {
        if self.remaining == 0 {
            (self, Some(self.spec_to_movement(original.position)))
        } else {
            let mover = original.at(self.position);
            let items = collisions_with(
                mover,
                self.probe(),
                near(mover.spec_movement_aabb(self.probe())),
            );
            self.after_query(original.position, closest_of(items), nearest_of(items))
        }
    }

    /// The state after one step against what `env` reports, and the result
    /// if the step was the last.
    pub open spec fn spec_step<F: ForEachShapePosition>(
        self,
        env: &F,
        original: ShapePosition,
    ) -> (MovementStateMachine, Option<Movement>) {
        self.spec_step_with(near_of(env), original)
    }

    /// The result that the steps from this state on lead to, where `near`
    /// tells which entities are near a box.
    pub open spec fn spec_run_with(
        self,
        near: spec_fn(Aabb) -> Seq<ShapePosition>,
        original: ShapePosition,
    ) -> Movement
        decreases self.remaining,
    {
        let (next, done) = self.spec_step_with(near, original);
        match done {
            Some(m) => m,
            None => if next.remaining < self.remaining {
                next.spec_run_with(near, original)
            } else {
                next.spec_to_movement(original.position)
            },
        }
    }

    /// The result that the steps from this state on lead to, against what
    /// `env` reports.
    pub open spec fn spec_run<F: ForEachShapePosition>(
        self,
        env: &F,
        original: ShapePosition,
    ) -> Movement {
        self.spec_run_with(near_of(env), original)
    }

    pub fn new(movement: Vector2, position: Vector2) -> (state: MovementStateMachine)
        ensures
            state == MovementStateMachine::initial(movement, position),
    {
        MovementStateMachine {
            movement,
            position,
            bump: None,
            velocity_correction: Vector2 { x: 0, y: 0 },
            remaining: MAX_ITERATIONS,
        }
    }

    /// The result for an entity that started at `original_position`.
    pub fn to_movement(&self, original_position: Vector2) -> (m: Movement)
        requires
            self.position.within(REACH_LIMIT as int),
            self.velocity_correction.within(REACH_LIMIT as int),
            original_position.within(REACH_LIMIT as int),
        ensures
            m == self.spec_to_movement(original_position),
    {
        Movement {
            position: self.position,
            velocity: self.position.minus(original_position).plus(self.velocity_correction),
        }
    }

    /// Takes one step, and gives the result if the step was the last.
    pub fn step<F: ForEachShapePosition>(
        &mut self,
        env: &MovementEnv<F>,
        ctx: &mut MovementContext,
    ) -> (done: Option<Movement>)
        requires
            env.wf(),
            old(self).wf(env.original.position),
        ensures
            (*final(self), done) == old(self).spec_step(env.for_each_shape_position, env.original),
            done is None ==> final(self).wf(env.original.position) && final(self).remaining < old(
                self,
            ).remaining,
    {
        let start = env.original.position;
        proof {
            lemma_movement_within(self.movement);
            if let Some(b) = self.bump {
                lemma_movement_within(b);
            }
        }
        if self.remaining == 0 {
            return Some(self.to_movement(start));
        }
        match self.bump {
            Some(bump) => {
                env.closest_collisions(self.position, bump, ctx);
                let closest = ctx.closest_list();
                if closest.len() > 0 {
                    return Some(self.to_movement(start));
                }
                self.position = self.position.plus(bump);
                self.velocity_correction = self.velocity_correction.minus(bump);
                self.bump = None;
            },
            None => {
                env.closest_collisions(self.position, self.movement, ctx);
                match ctx.nearest_one() {
                    None => {
                        self.position = self.position.plus(self.movement);
                        return Some(self.to_movement(start));
                    },
                    Some(nearest) => {
                        let contact = nearest.left_solid_edge_collision;
                        proof {
                            contact.lemma_vectors(self.movement);
                        }
                        self.position = self.position.plus(
                            contact.movement_to_collision(self.movement),
                        );
                        let closest = ctx.closest_list();
                        match max_bump(&closest) {
                            None => {
                                self.movement = contact.slide(self.movement);
                            },
                            Some(bump) => {
                                self.bump = Some(bump.vector());
                                self.movement = contact.movement_following_collision(
                                    self.movement,
                                );
                            },
                        }
                    },
                }
            },
        }
        self.remaining -= 1;
        None
    }
}

/// Where an entity ends up that stands as `shape_position` says and wants
/// to move by `movement`, and the velocity it realises, where `near` tells
/// which entities are near a box.
pub open spec fn resolve_with(
    near: spec_fn(Aabb) -> Seq<ShapePosition>,
    shape_position: ShapePosition,
    movement: Vector2,
) -> Movement {
    MovementStateMachine::initial(movement, shape_position.position).spec_run_with(
        near,
        shape_position,
    )
}

/// Where an entity ends up that stands as `shape_position` says and wants
/// to move by `movement`, and the velocity it realises, against what `env`
/// reports.
pub open spec fn spec_position_after_allowed_movement<F: ForEachShapePosition>(
    env: &F,
    shape_position: ShapePosition,
    movement: Vector2,
) -> Movement {
    resolve_with(near_of(env), shape_position, movement)
}

impl MovementContext {
    /// Resolves the movement of one entity: advances it to each nearest
    /// contact in turn, sliding along what it meets, until the movement is
    /// used up, something cannot be passed, or the steps run out.
    pub fn position_after_allowed_movement<F: ForEachShapePosition>(
        &mut self,
        shape_position: ShapePosition,
        movement: Vector2,
        for_each_shape_position: &F,
    ) -> (r: Movement)
        requires
            for_each_shape_position.wf(),
            shape_position.wf(),
            is_movement(movement),
        ensures
            r == spec_position_after_allowed_movement(
                for_each_shape_position,
                shape_position,
                movement,
            ),
            nothing_else_near(for_each_shape_position, shape_position, movement) ==> r.position
                == shape_position.position.spec_plus(movement) && r.velocity == movement,
            movement.is_zero() ==> r.position == shape_position.position && r.velocity == movement,
            r.velocity == r.position.spec_minus(shape_position.position),
    {
        let mut state = MovementStateMachine::new(movement, shape_position.position);
        let env = MovementEnv { for_each_shape_position, original: shape_position };
        loop
            invariant
                env.wf(),
                env.original == shape_position,
                env.for_each_shape_position == for_each_shape_position,
                shape_position.wf(),
                is_movement(movement),
                state.wf(shape_position.position),
                state.spec_run(for_each_shape_position, shape_position)
                    == spec_position_after_allowed_movement(
                    for_each_shape_position,
                    shape_position,
                    movement,
                ),
            decreases state.remaining,
        {
            if let Some(result) = state.step(&env, self) {
                proof {
                    if nothing_else_near(for_each_shape_position, shape_position, movement) {
                        lemma_free_movement(for_each_shape_position, shape_position, movement);
                    }
                    if movement.is_zero() {
                        lemma_zero_movement_stays(for_each_shape_position, shape_position);
                    }
                    lemma_velocity_is_the_way_made(
                        for_each_shape_position,
                        shape_position,
                        movement,
                    );
                }
                return result;
            }
        }
    }
}


/// For each of `others` that is another entity and that `shape_position`,
/// moving by `movement`, touches: that entity, and the oldest of the
/// nearest contacts with it.
pub open spec fn first_contacts(
    shape_position: ShapePosition,
    movement: Vector2,
    others: Seq<ShapePosition>,
) -> Seq<(EntityId, Collision)>
    decreases others.len(),
{
    if others.len() == 0 {
        Seq::empty()
    } else {
        let before = first_contacts(shape_position, movement, others.drop_last());
        let other = others.last();
        let held = closest_of(
            tagged(
                other.entity_id,
                movement_collisions(
                    &shape_position.shape,
                    shape_position.position,
                    &other.shape,
                    other.position,
                    movement,
                ),
            ),
        );
        if other.entity_id != shape_position.entity_id && held.len() > 0 {
            before.push((other.entity_id, held[0]))
        } else {
            before
        }
    }
}

/// What a platform that moves by `movement` does to an entity it touches at
/// `contact`: it pushes it by the part of the movement that comes after the
/// contact, and hands it its whole movement as velocity.
pub open spec fn displacement_at(contact: Collision, movement: Vector2) -> Displacement {
    Displacement {
        movement: contact.left_solid_edge_collision.spec_movement_following_collision(movement),
        velocity: movement,
    }
}

/// The push `entry` hands over the velocity `movement` and moves by no more
/// than one movement.
pub open spec fn pushed_by(entry: (EntityId, Displacement), movement: Vector2) -> bool {
    entry.1.velocity == movement && entry.1.movement.within(MOVEMENT_LIMIT as int)
}

/// The displacements of those of `others` that the platform touches, in
/// their order.
pub open spec fn displacements_among(
    shape_position: ShapePosition,
    movement: Vector2,
    others: Seq<ShapePosition>,
) -> Seq<(EntityId, Displacement)> {
    let contacts = first_contacts(shape_position, movement, others);
    Seq::new(contacts.len(), |i: int| (contacts[i].0, displacement_at(contacts[i].1, movement)))
}

/// The displacements of the entities that `env` reports near the swept box
/// of the platform, in the order in which it reports them.
pub open spec fn spec_displacements<F: ForEachShapePosition>(
    env: &F,
    shape_position: ShapePosition,
    movement: Vector2,
) -> Seq<(EntityId, Displacement)> {
    displacements_among(
        shape_position,
        movement,
        env.near(shape_position.spec_movement_aabb(movement)),
    )
}

proof fn lemma_below_is_movement()
    ensures
        is_movement(spec_below_test_movement()),
{
    let v = spec_below_test_movement();
    assert(v.x * v.x + v.y * v.y == 1) by (nonlinear_arith)
        requires
            v.x == 0,
            v.y == 1,
    ;
    assert(MOVEMENT_LIMIT * MOVEMENT_LIMIT >= 1) by (nonlinear_arith)
        requires
            MOVEMENT_LIMIT == 0x10_0000,
    ;
}

impl MovementContext {
    /// For each other entity that `env` reports near the swept box and that
    /// the moving entity touches: that entity, and the oldest of the nearest
    /// contacts with it.
    pub fn for_each_collision<F: ForEachShapePosition>(
        &mut self,
        shape_position: ShapePosition,
        movement: Vector2,
        for_each_shape_position: &F,
    ) -> (found: Vec<(EntityId, Collision)>)
        requires
            for_each_shape_position.wf(),
            shape_position.wf(),
            is_movement(movement),
        ensures
            found@ == first_contacts(
                shape_position,
                movement,
                for_each_shape_position.near(shape_position.spec_movement_aabb(movement)),
            ),
            forall|k: int| 0 <= k < found@.len() ==> (#[trigger] found@[k]).1.wf(),
    {
        proof {
            lemma_movement_within(movement);
        }
        self.closest_collisions.clear();
        let others = for_each_shape_position.for_each(shape_position.movement_aabb(movement));
        let mut found: Vec<(EntityId, Collision)> = Vec::new();
        let mut i: usize = 0;
        while i < others.len()
            invariant
                0 <= i <= others@.len(),
                shape_position.wf(),
                is_movement(movement),
                forall|k: int| 0 <= k < others@.len() ==> (#[trigger] others@[k]).wf(),
                self.closest_collisions@ == Seq::<Collision>::empty(),
                found@ == first_contacts(shape_position, movement, others@.take(i as int)),
                forall|k: int| 0 <= k < found@.len() ==> (#[trigger] found@[k]).1.wf(),
            decreases others@.len() - i,
        {
            let other = others[i];
            proof {
                let upto = others@.take(i as int + 1);
                assert(upto.drop_last() =~= others@.take(i as int));
                assert(upto.last() == other);
                assert(others@[i as int].wf());
            }
            if other.entity_id != shape_position.entity_id {
                movement_collision_test(
                    &shape_position.shape,
                    shape_position.position,
                    &other.shape,
                    other.position,
                    other.entity_id,
                    movement,
                    &mut self.closest_collisions,
                    &mut self.nearest_collision,
                );
                let held = self.closest_collisions.drain();
                if held.len() > 0 {
                    found.push((other.entity_id, held[0]));
                }
            }
            i += 1;
        }
        proof {
            assert(others@.take(i as int) =~= others@);
        }
        found
    }

    /// The contacts that tie for nearest when the entity probes one unit
    /// straight down: what it stands on.
    pub fn collisions_below<F: ForEachShapePosition>(
        &mut self,
        shape_position: ShapePosition,
        for_each_shape_position: &F,
    ) -> (below: CollisionsBelow)
        requires
            for_each_shape_position.wf(),
            shape_position.wf(),
        ensures
            below@ == closest_of(
                candidates(for_each_shape_position, shape_position, spec_below_test_movement()),
            ),
    {
        proof {
            lemma_below_is_movement();
        }
        self.closest_collisions(shape_position, below_test_movement(), for_each_shape_position);
        CollisionsBelow { collisions: self.closest_collisions.iter() }
    }

    /// Appends to `displacements`, for each entity that the platform touches
    /// while it moves by `movement`, how far it pushes that entity and the
    /// velocity it hands to it.
    pub fn displacement_after_movement<F: ForEachShapePosition>(
        &mut self,
        shape_position: ShapePosition,
        movement: Vector2,
        for_each_shape_position: &F,
        displacements: &mut Vec<(EntityId, Displacement)>,
    )
        requires
            for_each_shape_position.wf(),
            shape_position.wf(),
            is_movement(movement),
        ensures
            final(displacements)@ == old(displacements)@ + spec_displacements(
                for_each_shape_position,
                shape_position,
                movement,
            ),
            forall|k: int|
                old(displacements)@.len() <= k < final(displacements)@.len() ==> pushed_by(
                    #[trigger] final(displacements)@[k],
                    movement,
                ),
    {
        let contacts = self.for_each_collision(shape_position, movement, for_each_shape_position);
        let ghost wanted = spec_displacements(for_each_shape_position, shape_position, movement);
        let mut i: usize = 0;
        while i < contacts.len()
            invariant
                0 <= i <= contacts@.len(),
                is_movement(movement),
                wanted.len() == contacts@.len(),
                forall|k: int|
                    0 <= k < contacts@.len() ==> (#[trigger] wanted[k]) == (
                        contacts@[k].0,
                        displacement_at(contacts@[k].1, movement),
                    ),
                forall|k: int| 0 <= k < contacts@.len() ==> (#[trigger] contacts@[k]).1.wf(),
                displacements@ == old(displacements)@ + wanted.take(i as int),
                forall|k: int|
                    old(displacements)@.len() <= k < displacements@.len() ==> pushed_by(
                        #[trigger] displacements@[k],
                        movement,
                    ),
            decreases contacts@.len() - i,
        {
            let entity_id = contacts[i].0;
            let collision = contacts[i].1;
            assert(contacts@[i as int].1.wf());
            proof {
                collision.left_solid_edge_collision.lemma_vectors(movement);
            }
            let displacement_movement = collision.left_solid_edge_collision.displacement(movement);
            let displacement_velocity = collision.left_solid_edge_collision.displacement_full_movement(
                movement,
            );
            let displacement = Displacement {
                movement: displacement_movement,
                velocity: displacement_velocity,
            };
            displacements.push((entity_id, displacement));
            proof {
                assert(wanted.take(i as int + 1) =~= wanted.take(i as int).push(wanted[i as int]));
                assert(displacements@ =~= old(displacements)@ + wanted.take(i as int + 1));
            }
            i += 1;
        }
        proof {
            assert(wanted.take(i as int) =~= wanted);
        }
    }
}


/// An entity finds no contact among shapes that are all its own.
pub proof fn lemma_alone_no_candidates(
    shape_position: ShapePosition,
    movement: Vector2,
    others: Seq<ShapePosition>,
)
    requires
        forall|i: int|
            0 <= i < others.len() ==> (#[trigger] others[i]).entity_id == shape_position.entity_id,
    ensures
        collisions_with(shape_position, movement, others) == Seq::<Collision>::empty(),
    decreases others.len(),
{
    if others.len() > 0 {
        assert(others.last() == others[others.len() - 1]);
        lemma_alone_no_candidates(shape_position, movement, others.drop_last());
    }
}

/// An entity that does not move finds no contact, whatever is near.
pub proof fn lemma_still_no_candidates(shape_position: ShapePosition, others: Seq<ShapePosition>)
    ensures
        collisions_with(shape_position, Vector2 { x: 0, y: 0 }, others) == Seq::<
            Collision,
        >::empty(),
    decreases others.len(),
{
    let still = Vector2 { x: 0, y: 0 };
    if others.len() > 0 {
        let other = others.last();
        lemma_still_no_candidates(shape_position, others.drop_last());
        assert(still.spec_negated() == still);
        crate::collide::lemma_no_movement_no_collisions(
            shape_position.shape.edges_facing(still),
            shape_position.position,
            other.shape.edges_facing(still),
            other.position,
        );
        let none = movement_collisions(
            &shape_position.shape,
            shape_position.position,
            &other.shape,
            other.position,
            still,
        );
        assert(tagged(other.entity_id, none) =~= Seq::<Collision>::empty());
        assert(Seq::<Collision>::empty() + Seq::<Collision>::empty() =~= Seq::<Collision>::empty());
    }
}

/// Where the first query finds no contact, the whole movement is made in
/// the first step, and the velocity is the movement.
pub proof fn lemma_no_contact_whole_movement<F: ForEachShapePosition>(
    env: &F,
    shape_position: ShapePosition,
    movement: Vector2,
)
    requires
        shape_position.wf(),
        is_movement(movement),
        candidates(env, shape_position, movement) == Seq::<Collision>::empty(),
    ensures
        spec_position_after_allowed_movement(env, shape_position, movement) == (Movement {
            position: shape_position.position.spec_plus(movement),
            velocity: movement,
        }),
        spec_position_after_allowed_movement(env, shape_position, movement).position.x
            == shape_position.position.x + movement.x,
        spec_position_after_allowed_movement(env, shape_position, movement).position.y
            == shape_position.position.y + movement.y,
{
    lemma_movement_within(movement);
    let state = MovementStateMachine::initial(movement, shape_position.position);
    assert(shape_position.at(state.position) == shape_position);
    assert(state.probe() == movement);
    let items = candidates(env, shape_position, movement);
    assert(closest_of(items) == Seq::<Collision>::empty());
    assert(nearest_of(items) == None::<Collision>);
    let step = state.spec_step(env, shape_position);
    assert(step.1 is Some);
}

/// No obstacle is present: every shape that `env` reports near the box that
/// the movement sweeps is the entity's own.
pub open spec fn nothing_else_near<F: ForEachShapePosition>(
    env: &F,
    shape_position: ShapePosition,
    movement: Vector2,
) -> bool {
    forall|i: int|
        0 <= i < env.near(shape_position.spec_movement_aabb(movement)).len() ==> (
        #[trigger] env.near(shape_position.spec_movement_aabb(movement))[i]).entity_id
            == shape_position.entity_id
}

/// With no obstacle present the entity ends exactly at its position plus
/// the movement, with the movement as its velocity.
pub proof fn lemma_free_movement<F: ForEachShapePosition>(
    env: &F,
    shape_position: ShapePosition,
    movement: Vector2,
)
    requires
        shape_position.wf(),
        is_movement(movement),
        nothing_else_near(env, shape_position, movement),
    ensures
        spec_position_after_allowed_movement(env, shape_position, movement) == (Movement {
            position: shape_position.position.spec_plus(movement),
            velocity: movement,
        }),
        spec_position_after_allowed_movement(env, shape_position, movement).position.x
            == shape_position.position.x + movement.x,
        spec_position_after_allowed_movement(env, shape_position, movement).position.y
            == shape_position.position.y + movement.y,
{
    lemma_alone_no_candidates(
        shape_position,
        movement,
        env.near(shape_position.spec_movement_aabb(movement)),
    );
    lemma_no_contact_whole_movement(env, shape_position, movement);
}

/// An entity that is asked not to move stays where it is, with no velocity,
/// whatever stands around it.
pub proof fn lemma_zero_movement_stays<F: ForEachShapePosition>(
    env: &F,
    shape_position: ShapePosition,
)
    requires
        shape_position.wf(),
    ensures
        spec_position_after_allowed_movement(env, shape_position, Vector2 { x: 0, y: 0 }) == (
        Movement { position: shape_position.position, velocity: Vector2 { x: 0, y: 0 } }),
{
    let still = Vector2 { x: 0, y: 0 };
    assert(is_movement(still)) by {
        assert(still.x * still.x + still.y * still.y == 0) by (nonlinear_arith)
            requires
                still.x == 0,
                still.y == 0,
        ;
        assert(MOVEMENT_LIMIT * MOVEMENT_LIMIT >= 0) by (nonlinear_arith);
    }
    lemma_still_no_candidates(
        shape_position,
        env.near(shape_position.spec_movement_aabb(still)),
    );
    lemma_no_contact_whole_movement(env, shape_position, still);
    assert(shape_position.position.spec_plus(still) == shape_position.position);
}


/// The velocity of what an entity stands on is one of the velocities that
/// are kept, or none at all: where those are within a limit, so is it.
pub proof fn lemma_max_velocity_is_kept(
    below: Seq<Collision>,
    velocities: Seq<Option<Vector2>>,
    limit: int,
)
    requires
        limit >= 0,
        forall|i: int|
            0 <= i < velocities.len() ==> ((#[trigger] velocities[i]) matches Some(v) ==> v.within(
                limit,
            )),
    ensures
        spec_max_velocity(below, velocities) matches Some(v) ==> v.within(limit),
{
    lemma_longest_velocity_is_kept(below, velocities, limit);
}

proof fn lemma_longest_velocity_is_kept(
    below: Seq<Collision>,
    velocities: Seq<Option<Vector2>>,
    limit: int,
)
    requires
        forall|i: int|
            0 <= i < velocities.len() ==> ((#[trigger] velocities[i]) matches Some(v) ==> v.within(
                limit,
            )),
    ensures
        longest_velocity(below, velocities) matches Some(v) ==> v.within(limit),
    decreases below.len(),
{
    if below.len() > 0 {
        lemma_longest_velocity_is_kept(below.drop_last(), velocities, limit);
        let id = below.last().stationary_entity_id;
        if id < velocities.len() {
            assert(velocities[id as int] matches Some(v) ==> v.within(limit));
        }
    }
}


/// The contacts of an entity with what is near ask for no bump.
pub proof fn lemma_candidates_ask_for_no_bump(
    shape_position: ShapePosition,
    movement: Vector2,
    others: Seq<ShapePosition>,
)
    ensures
        crate::best_of::no_bumps(collisions_with(shape_position, movement, others)),
    decreases others.len(),
{
    if others.len() > 0 {
        let other = others.last();
        lemma_candidates_ask_for_no_bump(shape_position, movement, others.drop_last());
        crate::collide::lemma_contacts_ask_for_no_bump(
            shape_position.shape.edges_facing(movement),
            shape_position.position,
            other.shape.edges_facing(movement.spec_negated()),
            other.position,
            movement,
        );
    }
}

proof fn lemma_run_without_bumps(
    state: MovementStateMachine,
    near: spec_fn(Aabb) -> Seq<ShapePosition>,
    original: ShapePosition,
)
    requires
        state.bump is None,
        state.velocity_correction == (Vector2 { x: 0, y: 0 }),
    ensures
        state.spec_run_with(near, original).velocity == state.spec_run_with(
            near,
            original,
        ).position.spec_minus(original.position),
    decreases state.remaining,
{
    if state.remaining != 0 {
        let mover = original.at(state.position);
        let items = collisions_with(
            mover,
            state.probe(),
            near(mover.spec_movement_aabb(state.probe())),
        );
        lemma_candidates_ask_for_no_bump(
            mover,
            state.probe(),
            near(mover.spec_movement_aabb(state.probe())),
        );
        crate::best_of::lemma_closest_keep_no_bumps(Seq::empty(), items);
        crate::bump::lemma_no_bumps_no_max(closest_of(items));
        let (next, done) = state.spec_step_with(near, original);
        if done is None {
            lemma_run_without_bumps(next, near, original);
        }
    }
}

/// The velocity that a resolved movement reports is the way that was made:
/// the difference between where the entity ends up and where it started.
pub proof fn lemma_velocity_is_the_way_made<F: ForEachShapePosition>(
    env: &F,
    shape_position: ShapePosition,
    movement: Vector2,
)
    ensures
        spec_position_after_allowed_movement(env, shape_position, movement).velocity
            == spec_position_after_allowed_movement(
            env,
            shape_position,
            movement,
        ).position.spec_minus(shape_position.position),
{
    lemma_run_without_bumps(
        MovementStateMachine::initial(movement, shape_position.position),
        near_of(env),
        shape_position,
    );
}

} // verus!

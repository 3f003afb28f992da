use platformer::axis_aligned_rect::AxisAlignedRect;
use platformer::bump::max_bump;
use platformer::bump::Bump;
use platformer::collide::Collision;
use platformer::game::AllShapePositions;
use platformer::game::DynamicPhysicsShapePositions;
use platformer::game::EntityCommon;
use platformer::game::GameState;
use platformer::left_solid_edge::CollisionWithSlide;
use platformer::line_segment::LineSegment;
use platformer::movement::below_test_movement;
use platformer::movement::Displacement;
use platformer::movement::ForEachShapePosition;
use platformer::movement::MovementContext;
use platformer::movement::MovementEnv;
use platformer::movement::MovementStateMachine;
use platformer::shape::Shape;
use platformer::shape::ShapePosition;
use platformer::aabb::Aabb;
use platformer::vector::Vector2;

fn v(x: i64, y: i64) -> Vector2 {
    Vector2::new(x, y)
}

fn rect(w: i64, h: i64) -> Shape {
    Shape::AxisAlignedRect(AxisAlignedRect::new(v(w, h)))
}

fn add(state: &mut GameState, position: Vector2, shape: Shape) -> ShapePosition {
    let id = state.add_static_solid(EntityCommon::new(position, shape));
    ShapePosition { entity_id: id, shape, position }
}

fn contact(entity: u32, numerator: i64, denominator: i64, bump: Option<Vector2>) -> Collision {
    Collision {
        stationary_entity_id: entity,
        left_solid_edge_collision: CollisionWithSlide {
            numerator,
            denominator,
            edge_vector: v(1, 0),
            bump,
        },
    }
}

#[test]
fn floor_only_platform_is_not_met_by_the_default_channels() {
    let mut state = GameState::new(v(1000, 1000));
    let mover = add(&mut state, v(20, 5), rect(10, 10));
    let platform = Shape::AxisAlignedRect(AxisAlignedRect::new_floor_only(v(100, 10)));
    add(&mut state, v(0, 15), platform);
    let mut ctx = MovementContext::new();
    let below = ctx.collisions_below(mover, &AllShapePositions(&state));
    assert!(!below.can_jump());
    assert_eq!(below.max_velocity(&state.velocity), None);
    ctx.closest_collisions(mover, v(0, 10), &AllShapePositions(&state));
    assert!(ctx.closest_list().is_empty());
    assert!(ctx.nearest_one().is_none());
    let fallen = ctx.position_after_allowed_movement(mover, v(0, 30), &AllShapePositions(&state));
    assert_eq!(fallen.position, v(20, 35));
}

#[test]
fn character_stands_on_a_floor_only_platform() {
    let mut state = GameState::new(v(1000, 1000));
    let character = Shape::AxisAlignedRect(AxisAlignedRect::new_character(v(10, 10)));
    let mover = add(&mut state, v(20, 5), character);
    let platform = Shape::AxisAlignedRect(AxisAlignedRect::new_floor_only(v(100, 10)));
    let platform = add(&mut state, v(0, 15), platform);
    let mut ctx = MovementContext::new();
    let below = ctx.collisions_below(mover, &AllShapePositions(&state));
    assert!(below.can_jump());
    let landed = ctx.position_after_allowed_movement(
        ShapePosition { position: v(20, 0), ..mover },
        v(0, 30),
        &AllShapePositions(&state),
    );
    assert_eq!(landed.position, v(20, 5));
    let from_below = ctx.position_after_allowed_movement(
        ShapePosition { position: v(20, 40), ..mover },
        v(0, -40),
        &AllShapePositions(&state),
    );
    assert_eq!(from_below.position, v(20, 0));
    assert_eq!(platform.entity_id, 1);
}

#[test]
fn support_query_reports_what_is_stood_on() {
    let mut state = GameState::new(v(1000, 1000));
    let mover = add(&mut state, v(95, 5), rect(10, 10));
    let left = add(&mut state, v(0, 15), rect(100, 10));
    let right = add(&mut state, v(100, 15), rect(100, 10));
    add(&mut state, v(0, 100), rect(100, 10));
    state.set_velocity(left.entity_id, v(3, 0));
    state.set_velocity(right.entity_id, v(0, -5));
    let mut ctx = MovementContext::new();
    let below = ctx.collisions_below(mover, &AllShapePositions(&state));
    assert!(below.can_jump());
    assert_eq!(below.max_velocity(&state.velocity), Some(v(0, -5)));
    state.set_velocity(right.entity_id, v(0, 3));
    assert_eq!(below.max_velocity(&state.velocity), Some(v(0, 3)));
    state.set_velocity(right.entity_id, v(0, 2));
    assert_eq!(below.max_velocity(&state.velocity), Some(v(3, 0)));
    assert_eq!(below.max_velocity(&vec![]), Some(v(0, 0)));
    assert_eq!(below_test_movement(), v(0, 1));
}

#[test]
fn of_tied_contacts_all_are_kept_and_the_last_stands_for_them() {
    let mut state = GameState::new(v(1000, 1000));
    let mover = add(&mut state, v(95, 0), rect(10, 10));
    let left = add(&mut state, v(0, 15), rect(100, 10));
    let right = add(&mut state, v(100, 15), rect(100, 10));
    let mut ctx = MovementContext::new();
    ctx.closest_collisions(mover, v(0, 10), &AllShapePositions(&state));
    let ids: Vec<u32> = ctx.closest_list().iter().map(|c| c.stationary_entity_id).collect();
    assert_eq!(
        ids,
        vec![
            left.entity_id,
            left.entity_id,
            left.entity_id,
            right.entity_id,
            right.entity_id,
            right.entity_id
        ]
    );
    let along: Vec<Vector2> =
        ctx.closest_list().iter().map(|c| c.left_solid_edge_collision.edge_vector).collect();
    assert_eq!(
        along,
        vec![v(100, 0), v(10, 0), v(100, 0), v(100, 0), v(100, 0), v(10, 0)]
    );
    for c in ctx.closest_list() {
        assert_eq!(c.left_solid_edge_collision.movement_to_collision(v(0, 10)), v(0, 5));
    }
    let nearest = ctx.nearest_one().unwrap();
    assert_eq!(nearest.stationary_entity_id, right.entity_id);
    assert_eq!(nearest.left_solid_edge_collision.edge_vector, v(10, 0));
}

#[test]
fn nothing_below_means_no_jump_and_no_velocity() {
    let mut state = GameState::new(v(1000, 1000));
    let mover = add(&mut state, v(0, 0), rect(10, 10));
    add(&mut state, v(0, 12), rect(100, 10));
    let mut ctx = MovementContext::new();
    let below = ctx.collisions_below(mover, &AllShapePositions(&state));
    assert!(!below.can_jump());
    assert_eq!(below.max_velocity(&state.velocity), None);
}

#[test]
fn moving_platform_hands_its_velocity_to_a_resting_entity() {
    let push = Displacement { movement: v(2, 0), velocity: v(2, 0) };
    assert_eq!(push.combine_velocity(v(0, 0)), v(2, 0));
}

#[test]
fn pushed_entity_keeps_what_it_had_across_the_push() {
    let push = Displacement { movement: v(2, 0), velocity: v(2, 0) };
    assert_eq!(push.combine_velocity(v(3, 7)), v(2, 7));
    assert_eq!(push.combine_velocity(v(-9, -4)), v(2, -4));
    let slanted = Displacement { movement: v(3, 4), velocity: v(3, 4) };
    assert_eq!(slanted.combine_velocity(v(4, -3)), v(7, 1));
    assert_eq!(slanted.combine_velocity(v(3, 4)), v(3, 4));
    let nothing = Displacement { movement: v(0, 0), velocity: v(0, 0) };
    assert_eq!(nothing.combine_velocity(v(5, 6)), v(5, 6));
}

#[test]
fn platform_pushes_the_entity_in_its_way() {
    let mut state = GameState::new(v(1000, 1000));
    let platform = add(&mut state, v(0, 20), rect(10, 10));
    let entity = add(&mut state, v(10, 20), rect(10, 10));
    let far = add(&mut state, v(11, 40), rect(10, 10));
    let wall = add(&mut state, v(12, 15), rect(10, 10));
    state.set_dynamic(entity.entity_id);
    state.set_dynamic(far.entity_id);
    let mut ctx = MovementContext::new();
    let mut pushes = Vec::new();
    ctx.displacement_after_movement(
        platform,
        v(2, 0),
        &DynamicPhysicsShapePositions(&state),
        &mut pushes,
    );
    assert_eq!(
        pushes,
        vec![(entity.entity_id, Displacement { movement: v(2, 0), velocity: v(2, 0) })]
    );
    let contacts = ctx.for_each_collision(platform, v(2, 0), &AllShapePositions(&state));
    assert_eq!(contacts.len(), 2);
    assert_eq!(contacts[0].0, entity.entity_id);
    assert_eq!(contacts[0].1.left_solid_edge_collision.numerator, 0);
    assert_eq!(contacts[1].0, wall.entity_id);
    assert_eq!(contacts[1].1.left_solid_edge_collision.movement_to_collision(v(2, 0)), v(2, 0));
}

#[test]
fn platform_pushes_by_what_is_left_after_the_contact() {
    let mut state = GameState::new(v(1000, 1000));
    let platform = add(&mut state, v(0, 0), rect(10, 10));
    let entity = add(&mut state, v(13, 0), rect(10, 10));
    state.set_dynamic(entity.entity_id);
    let mut ctx = MovementContext::new();
    let mut pushes = vec![(9, Displacement { movement: v(1, 1), velocity: v(1, 1) })];
    ctx.displacement_after_movement(
        platform,
        v(5, 0),
        &DynamicPhysicsShapePositions(&state),
        &mut pushes,
    );
    assert_eq!(
        pushes,
        vec![
            (9, Displacement { movement: v(1, 1), velocity: v(1, 1) }),
            (entity.entity_id, Displacement { movement: v(2, 0), velocity: v(5, 0) }),
        ]
    );
}

#[test]
fn environments_report_what_the_index_finds() {
    let mut state = GameState::new(v(1000, 1000));
    let a = add(&mut state, v(0, 0), rect(10, 10));
    let b = add(&mut state, v(5, 5), rect(10, 10));
    let c = add(&mut state, v(50, 50), rect(10, 10));
    state.set_dynamic(b.entity_id);
    state.set_dynamic(c.entity_id);
    let query = Aabb::new(v(0, 0), v(20, 20));
    assert_eq!(AllShapePositions(&state).for_each(query), vec![a, b]);
    assert_eq!(DynamicPhysicsShapePositions(&state).for_each(query), vec![b]);
    let everything = Aabb::new(v(-100, -100), v(1000, 1000));
    assert_eq!(DynamicPhysicsShapePositions(&state).for_each(everything), vec![b, c]);
}

#[test]
fn longest_bump_wins_and_the_later_of_two_as_long() {
    assert_eq!(max_bump(&vec![]), None);
    assert_eq!(max_bump(&vec![contact(1, 0, 1, None)]), None);
    let some = vec![
        contact(1, 0, 1, Some(v(0, -2))),
        contact(2, 0, 1, None),
        contact(3, 0, 1, Some(v(3, 0))),
        contact(4, 0, 1, Some(v(0, 3))),
        contact(5, 0, 1, Some(v(1, 1))),
    ];
    assert_eq!(max_bump(&some), Some(Bump::new(v(0, 3))));
    assert_eq!(Bump::new(v(0, 3)).vector(), v(0, 3));
}

#[test]
fn state_machine_walks_through_a_free_movement() {
    let mut state = GameState::new(v(1000, 1000));
    let mover = add(&mut state, v(0, 0), rect(10, 10));
    let all = AllShapePositions(&state);
    let env = MovementEnv { for_each_shape_position: &all, original: mover };
    let mut ctx = MovementContext::new();
    let mut machine = MovementStateMachine::new(v(3, 4), v(0, 0));
    assert_eq!(machine.remaining, 16);
    assert_eq!(machine.bump, None);
    let done = machine.step(&env, &mut ctx).unwrap();
    assert_eq!(done.position, v(3, 4));
    assert_eq!(done.velocity, v(3, 4));
    assert_eq!(env.shape_position(v(7, 7)), ShapePosition { position: v(7, 7), ..mover });
}

#[test]
fn state_machine_makes_a_waiting_bump_and_leaves_it_out_of_the_velocity() {
    let mut state = GameState::new(v(1000, 1000));
    let mover = add(&mut state, v(0, 0), rect(10, 10));
    let all = AllShapePositions(&state);
    let env = MovementEnv { for_each_shape_position: &all, original: mover };
    let mut ctx = MovementContext::new();
    let mut machine = MovementStateMachine {
        movement: v(5, 0),
        position: v(1, 0),
        bump: Some(v(0, -2)),
        velocity_correction: v(0, 0),
        remaining: 15,
    };
    assert_eq!(machine.step(&env, &mut ctx), None);
    assert_eq!(machine.position, v(1, -2));
    assert_eq!(machine.velocity_correction, v(0, 2));
    assert_eq!(machine.bump, None);
    assert_eq!(machine.remaining, 14);
    assert_eq!(machine.movement, v(5, 0));
    let done = machine.step(&env, &mut ctx).unwrap();
    assert_eq!(done.position, v(6, -2));
    assert_eq!(done.velocity, v(6, 0));
}

#[test]
fn state_machine_gives_up_a_bump_that_is_blocked() {
    let mut state = GameState::new(v(1000, 1000));
    let mover = add(&mut state, v(0, 0), rect(10, 10));
    add(&mut state, v(0, -11), rect(10, 10));
    let all = AllShapePositions(&state);
    let env = MovementEnv { for_each_shape_position: &all, original: mover };
    let mut ctx = MovementContext::new();
    let mut machine = MovementStateMachine {
        movement: v(5, 0),
        position: v(2, 0),
        bump: Some(v(0, -2)),
        velocity_correction: v(0, 0),
        remaining: 15,
    };
    let done = machine.step(&env, &mut ctx).unwrap();
    assert_eq!(done.position, v(2, 0));
    assert_eq!(done.velocity, v(2, 0));
}

#[test]
fn state_machine_ends_where_it_is_when_the_steps_run_out() {
    let mut state = GameState::new(v(1000, 1000));
    let mover = add(&mut state, v(0, 0), rect(10, 10));
    let all = AllShapePositions(&state);
    let env = MovementEnv { for_each_shape_position: &all, original: mover };
    let mut ctx = MovementContext::new();
    let mut machine = MovementStateMachine {
        movement: v(5, 0),
        position: v(4, 1),
        bump: None,
        velocity_correction: v(0, -1),
        remaining: 0,
    };
    let done = machine.step(&env, &mut ctx).unwrap();
    assert_eq!(done.position, v(4, 1));
    assert_eq!(done.velocity, v(4, 0));
    assert_eq!(machine.to_movement(v(0, 0)), done);
}

#[test]
fn entity_lands_on_a_segment_that_is_solid_on_both_sides() {
    let mut state = GameState::new(v(1000, 1000));
    let mover = add(&mut state, v(0, 0), rect(10, 10));
    let segment = Shape::LineSegment(LineSegment::new_both_solid(v(0, 0), v(100, 0)));
    add(&mut state, v(-20, 20), segment);
    let mut ctx = MovementContext::new();
    let down = ctx.position_after_allowed_movement(mover, v(0, 30), &AllShapePositions(&state));
    assert_eq!(down.position, v(0, 9));
    assert_eq!(down.velocity, v(0, 9));
    let under = ShapePosition { position: v(0, 40), ..mover };
    let up = ctx.position_after_allowed_movement(under, v(0, -30), &AllShapePositions(&state));
    assert_eq!(up.position, v(0, 21));
    assert_eq!(up.velocity, v(0, -19));
}

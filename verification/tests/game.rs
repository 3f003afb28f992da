use platformer::axis_aligned_rect::AxisAlignedRect;
use platformer::game::clamp;
use platformer::game::confine;
use platformer::game::isqrt;
use platformer::game::jump_frame_count_to_velocity;
use platformer::game::limit_velocity;
use platformer::game::update_player_velocity;
use platformer::game::EntityCommon;
use platformer::game::EntityIdAllocator;
use platformer::game::GameState;
use platformer::game::GameStateChanges;
use platformer::game::InputModel;
use platformer::game::JumpStateMachine;
use platformer::game::RenderUpdate;
use platformer::game::UNIT;
use platformer::movement::MovementContext;
use platformer::shape::Shape;
use platformer::vector::Vector2;

fn v(x: i64, y: i64) -> Vector2 {
    Vector2::new(x, y)
}

fn rect(w: i64, h: i64) -> Shape {
    Shape::AxisAlignedRect(AxisAlignedRect::new(v(w, h)))
}

fn character(w: i64, h: i64) -> Shape {
    Shape::AxisAlignedRect(AxisAlignedRect::new_character(v(w, h)))
}

fn world_with_player_on_floor() -> GameState {
    let mut state = GameState::new(v(960_000, 640_000));
    let player = state.add_common(EntityCommon::new(v(0, 0), character(10_000, 10_000)));
    state.set_player(player);
    state.set_velocity(player, v(0, 0));
    state.set_dynamic(player);
    state.add_static_solid(EntityCommon::new(v(-50_000, 10_000), rect(200_000, 10_000)));
    state
}

fn tick(state: &mut GameState, input: &InputModel, platforms: &Vec<Vector2>) {
    let mut changes = GameStateChanges::default();
    let mut ctx = MovementContext::new();
    state.update(input, platforms, &mut changes, &mut ctx);
    assert!(changes.position.is_empty());
    assert!(changes.velocity.is_empty());
    assert!(changes.displacements.is_empty());
}

#[test]
fn allocator_counts_up_from_zero() {
    let mut a = EntityIdAllocator::new();
    assert_eq!(a.allocate(), 0);
    assert_eq!(a.allocate(), 1);
    assert_eq!(a.allocate(), 2);
    a.reset();
    assert_eq!(a.allocate(), 0);
}

#[test]
fn clamp_brings_into_range() {
    assert_eq!(clamp(5, 0, 10), 5);
    assert_eq!(clamp(-5, 0, 10), 0);
    assert_eq!(clamp(15, 0, 10), 10);
    assert_eq!(clamp(5, 10, 0), 0);
    assert_eq!(limit_velocity(v(1 << 30, -(1 << 30))), v(1 << 19, -(1 << 19)));
    assert_eq!(limit_velocity(v(7, -8)), v(7, -8));
    assert_eq!(confine(v(1 << 40, -5)), v(1 << 29, -5));
    assert_eq!(confine(v(3, i64::MIN)), v(3, -(1 << 29)));
}

#[test]
fn whole_square_roots() {
    assert_eq!(isqrt(0), 0);
    assert_eq!(isqrt(1), 1);
    assert_eq!(isqrt(15), 3);
    assert_eq!(isqrt(16), 4);
    assert_eq!(isqrt(2_000_000), 1414);
    assert_eq!(isqrt(0xffff_ffff), 0xffff);
}

#[test]
fn input_axes_are_clamped() {
    let mut input = InputModel::default();
    input.set_right(5 * UNIT);
    input.set_left(-3);
    assert_eq!(input.horizontal(), UNIT);
    input.set_left(250);
    assert_eq!(input.horizontal(), 750);
    input.set_up(UNIT);
    input.set_down(400);
    assert_eq!(input.vertical(), -600);
    assert_eq!(input.movement(), v(750, -600));
}

#[test]
fn input_longer_than_one_is_shortened() {
    let mut input = InputModel::default();
    input.set_right(UNIT);
    input.set_down(UNIT);
    assert_eq!(input.movement(), v(707, 707));
    input.set_down(0);
    input.set_left(UNIT);
    assert_eq!(input.movement(), v(0, 0));
    input.set_left(0);
    input.set_up(UNIT);
    assert_eq!(input.movement(), v(707, -707));
    input.set_up(1);
    assert_eq!(input.movement(), v(1000, -1));
}

#[test]
fn jump_key_is_counted_while_held() {
    let mut input = InputModel::default();
    let mut jump = JumpStateMachine::NotJumping;
    assert_eq!(input.jump_count(), None);
    input.after_process();
    assert_eq!(input.jump_count(), None);
    jump.step(true, &input);
    assert_eq!(jump, JumpStateMachine::NotJumping);
    input.set_jump(true);
    input.after_process();
    assert_eq!(input.jump_count(), Some(0));
    jump.step(true, &input);
    assert_eq!(jump, JumpStateMachine::JumpingForFrames(0));
    input.after_process();
    jump.step(false, &input);
    assert_eq!(jump, JumpStateMachine::JumpingForFrames(1));
    input.after_process();
    jump.step(true, &input);
    assert_eq!(jump, JumpStateMachine::JumpingForFrames(2));
    input.set_jump(false);
    input.after_process();
    jump.step(true, &input);
    assert_eq!(jump, JumpStateMachine::NotJumping);
}

#[test]
fn jump_does_not_start_in_the_air_and_does_not_start_late() {
    let mut input = InputModel::default();
    let mut jump = JumpStateMachine::JumpingForFrames(3);
    input.set_jump(true);
    input.after_process();
    jump.step(false, &input);
    assert_eq!(jump, JumpStateMachine::NotJumping);
    input.after_process();
    jump.step(true, &input);
    assert_eq!(jump, JumpStateMachine::NotJumping);
}

#[test]
fn jump_push_falls_off() {
    assert_eq!(jump_frame_count_to_velocity(0), Some(2400));
    assert_eq!(jump_frame_count_to_velocity(1), Some(2000));
    assert_eq!(jump_frame_count_to_velocity(5), Some(400));
    assert_eq!(jump_frame_count_to_velocity(6), None);
    assert_eq!(jump_frame_count_to_velocity(u64::MAX), None);
}

#[test]
fn player_velocity_follows_input_gravity_jump_and_platform() {
    let mut input = InputModel::default();
    let resting = JumpStateMachine::NotJumping;
    assert_eq!(update_player_velocity(v(0, 100), &input, None, &resting), v(0, 600));
    input.set_right(UNIT);
    assert_eq!(update_player_velocity(v(123, 100), &input, None, &resting), v(4000, 600));
    assert_eq!(
        update_player_velocity(v(0, 100), &input, Some(v(2000, 50)), &resting),
        v(6000, 600)
    );
    input.set_right(0);
    input.set_left(UNIT);
    assert_eq!(update_player_velocity(v(0, 0), &input, None, &resting), v(-4000, 500));
    let jumping = JumpStateMachine::JumpingForFrames(0);
    assert_eq!(update_player_velocity(v(0, 0), &input, None, &jumping), v(-4000, -2400));
    let spent = JumpStateMachine::JumpingForFrames(6);
    assert_eq!(update_player_velocity(v(0, -100), &input, None, &spent), v(-4000, 400));
}

#[test]
fn tick_leaves_a_resting_player_at_rest() {
    let mut state = world_with_player_on_floor();
    let input = InputModel::default();
    tick(&mut state, &input, &vec![]);
    assert_eq!(state.common[0].position, v(0, 0));
    assert_eq!(state.velocity[0], Some(v(0, 0)));
    assert_eq!(state.jump[0], Some(JumpStateMachine::NotJumping));
    assert_eq!(state.frame_count, 1);
    assert_eq!(state.common[1].position, v(-50_000, 10_000));
    assert_eq!(state.quad_tree.len(), 2);
}

#[test]
fn tick_walks_the_player_along_the_floor() {
    let mut state = world_with_player_on_floor();
    let mut input = InputModel::default();
    input.set_right(UNIT);
    tick(&mut state, &input, &vec![]);
    assert_eq!(state.common[0].position, v(4000, 0));
    assert_eq!(state.velocity[0], Some(v(4000, 0)));
    tick(&mut state, &input, &vec![]);
    assert_eq!(state.common[0].position, v(8000, 0));
    assert_eq!(state.frame_count, 2);
}

#[test]
fn tick_lets_the_player_jump_and_fall_back() {
    let mut state = world_with_player_on_floor();
    let mut input = InputModel::default();
    input.set_jump(true);
    input.after_process();
    tick(&mut state, &input, &vec![]);
    assert_eq!(state.jump[0], Some(JumpStateMachine::JumpingForFrames(0)));
    assert_eq!(state.common[0].position, v(0, -2400));
    assert_eq!(state.velocity[0], Some(v(0, -2400)));
    input.after_process();
    tick(&mut state, &input, &vec![]);
    assert_eq!(state.jump[0], Some(JumpStateMachine::JumpingForFrames(1)));
    assert_eq!(state.velocity[0], Some(v(0, -4400)));
    assert_eq!(state.common[0].position, v(0, -6800));
    input.set_jump(false);
    input.after_process();
    let mut ticks = 0;
    while state.common[0].position != v(0, 0) {
        tick(&mut state, &input, &vec![]);
        ticks += 1;
        assert!(ticks < 100);
        assert!(state.common[0].position.y <= 0);
    }
    tick(&mut state, &input, &vec![]);
    assert_eq!(state.common[0].position, v(0, 0));
    assert_eq!(state.velocity[0], Some(v(0, 0)));
}

#[test]
fn tick_falls_freely_without_a_floor() {
    let mut state = GameState::new(v(960_000, 640_000));
    let player = state.add_common(EntityCommon::new(v(0, 0), character(10_000, 10_000)));
    state.set_player(player);
    state.set_velocity(player, v(0, 0));
    state.set_dynamic(player);
    let input = InputModel::default();
    tick(&mut state, &input, &vec![]);
    assert_eq!(state.common[0].position, v(0, 500));
    tick(&mut state, &input, &vec![]);
    assert_eq!(state.common[0].position, v(0, 1500));
    assert_eq!(state.velocity[0], Some(v(0, 1000)));
}

#[test]
fn tick_carries_the_player_on_a_moving_platform() {
    let mut state = GameState::new(v(960_000, 640_000));
    let player = state.add_common(EntityCommon::new(v(0, 0), character(10_000, 10_000)));
    state.set_player(player);
    state.set_velocity(player, v(0, 0));
    state.set_dynamic(player);
    let platform =
        state.add_static_solid(EntityCommon::new(v(-50_000, 10_000), rect(200_000, 10_000)));
    state.add_moving_platform(platform);
    let input = InputModel::default();
    tick(&mut state, &input, &vec![v(2000, 0)]);
    assert_eq!(state.velocity[1], Some(v(2000, 0)));
    assert_eq!(state.common[1].position, v(-48_000, 10_000));
    assert_eq!(state.common[0].position, v(2000, 0));
    assert_eq!(state.velocity[0], Some(v(2000, 0)));
}

#[test]
fn tick_lets_a_platform_push_the_player_aside() {
    let mut state = GameState::new(v(960_000, 640_000));
    let player = state.add_common(EntityCommon::new(v(10_000, 0), character(10_000, 10_000)));
    state.set_player(player);
    state.set_velocity(player, v(0, 0));
    state.set_dynamic(player);
    state.add_static_solid(EntityCommon::new(v(-50_000, 10_000), rect(200_000, 10_000)));
    let pusher = state.add_static_solid(EntityCommon::new(v(0, 0), rect(10_000, 9_000)));
    state.add_moving_platform(pusher);
    let input = InputModel::default();
    tick(&mut state, &input, &vec![v(2000, 0)]);
    assert_eq!(state.common[2].position, v(2000, 0));
    assert_eq!(state.common[0].position, v(12_000, 0));
    assert_eq!(state.velocity[0], Some(v(2000, 0)));
}

#[test]
fn platform_velocities_go_to_the_platforms_in_order() {
    let mut state = GameState::new(v(960_000, 640_000));
    let a = state.add_static_solid(EntityCommon::new(v(0, 0), rect(10, 10)));
    let b = state.add_static_solid(EntityCommon::new(v(100, 0), rect(10, 10)));
    state.add_moving_platform(b);
    state.add_moving_platform(a);
    state.set_platform_velocities(&vec![v(1, 2), v(1 << 40, 4), v(5, 6)]);
    assert_eq!(state.velocity[b as usize], Some(v(1, 2)));
    assert_eq!(state.velocity[a as usize], Some(v(1 << 19, 4)));
    assert_eq!(state.moving_platform_ids, vec![b, a]);
    assert_eq!(state.static_physics, vec![true, true]);
}

#[test]
fn index_is_rebuilt_from_where_the_entities_stand() {
    let mut state = GameState::new(v(960_000, 640_000));
    state.add_common(EntityCommon::new(v(1, 2), rect(10, 10)));
    state.add_static_solid(EntityCommon::new(v(100, 0), rect(10, 10)));
    assert_eq!(state.quad_tree.len(), 1);
    state.rebuild_index();
    assert_eq!(state.quad_tree.len(), 2);
    let query = platformer::aabb::Aabb::new(v(0, 0), v(5, 5));
    assert_eq!(
        state.quad_tree.for_each_intersection(&query),
        vec![(platformer::aabb::Aabb::new(v(1, 2), v(10, 10)), 0)]
    );
}

#[test]
fn demonstration_level() {
    let mut state = GameState::new(v(960_000, 640_000));
    state.add_static_solid(EntityCommon::new(v(1, 2), rect(10, 10)));
    state.init_demo();
    assert_eq!(state.common.len(), 19);
    assert_eq!(state.player_id, Some(0));
    assert_eq!(state.moving_platform_ids, vec![1, 2, 18]);
    assert_eq!(state.common[0], EntityCommon::new(v(550_000, 436_000), character(32_000, 64_000)));
    assert_eq!(state.common[7], EntityCommon::new(v(50_000, 500_000), rect(700_000, 20_000)));
    assert_eq!(
        state.common[5].shape,
        Shape::AxisAlignedRect(AxisAlignedRect::new_floor_only(v(500_000, 20_000)))
    );
    assert_eq!(state.velocity[0], Some(v(0, 0)));
    assert_eq!(state.velocity[3], None);
    assert_eq!(state.velocity[18], Some(v(0, 0)));
    assert_eq!(state.dynamic_physics.iter().filter(|d| **d).count(), 1);
    assert_eq!(state.static_physics.iter().filter(|s| **s).count(), 3);
    assert_eq!(state.jump[0], Some(JumpStateMachine::NotJumping));
    assert_eq!(state.quad_tree.len(), 18);
    assert_eq!(state.frame_count, 0);
    let drawn = state.render_updates();
    assert_eq!(drawn.len(), 19);
    assert_eq!(
        drawn[0],
        RenderUpdate { position: v(550_000, 436_000), shape: character(32_000, 64_000) }
    );
    let input = InputModel::default();
    for _ in 0..10 {
        tick(&mut state, &input, &vec![v(100, 0), v(0, 200), v(250, 0)]);
    }
    assert_eq!(state.frame_count, 10);
    assert_eq!(state.common[0].position, v(550_000, 436_000));
    assert_eq!(state.common[1].position, v(201_000, 350_000));
    state.clear();
    assert_eq!(state.common.len(), 0);
    assert_eq!(state.player_id, None);
}

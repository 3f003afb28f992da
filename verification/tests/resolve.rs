use platformer::axis_aligned_rect::AxisAlignedRect;
use platformer::game::AllShapePositions;
use platformer::game::EntityCommon;
use platformer::game::GameState;
use platformer::line_segment::LineSegment;
use platformer::movement::Movement;
use platformer::movement::MovementContext;
use platformer::shape::Shape;
use platformer::shape::ShapePosition;
use platformer::vector::Vector2;

fn v(x: i64, y: i64) -> Vector2 {
    Vector2::new(x, y)
}

fn rect(w: i64, h: i64) -> Shape {
    Shape::AxisAlignedRect(AxisAlignedRect::new(v(w, h)))
}

fn add(state: &mut GameState, position: Vector2, shape: Shape) -> ShapePosition {
    let id = state.add_static_solid(EntityCommon::new(position, shape));
    ShapePosition { entity_id: id, shape, position }
}

fn resolve(state: &GameState, mover: ShapePosition, movement: Vector2) -> Movement {
    let mut ctx = MovementContext::new();
    ctx.position_after_allowed_movement(mover, movement, &AllShapePositions(state))
}

#[test]
fn falling_entity_lands_on_platform_edge() {
    let mut state = GameState::new(v(1000, 1000));
    let feet = Shape::LineSegment(LineSegment::new_left_solid(v(10, 0), v(0, 0)));
    let mover = add(&mut state, v(0, 0), feet);
    let platform = Shape::LineSegment(LineSegment::new_left_solid(v(0, 0), v(10, 0)));
    add(&mut state, v(0, 5), platform);
    let result = resolve(&state, mover, v(0, 10));
    assert_eq!(result.position, v(0, 5));
    assert_eq!(result.velocity, v(0, 5));
}

#[test]
fn falling_box_lands_on_box() {
    let mut state = GameState::new(v(1000, 1000));
    let mover = add(&mut state, v(20, 0), rect(10, 10));
    add(&mut state, v(0, 15), rect(100, 10));
    let result = resolve(&state, mover, v(0, 10));
    assert_eq!(result.position, v(20, 5));
    assert_eq!(result.velocity, v(0, 5));
}

#[test]
fn box_slides_along_the_floor_it_lands_on() {
    let mut state = GameState::new(v(1000, 1000));
    let mover = add(&mut state, v(20, 0), rect(10, 10));
    add(&mut state, v(0, 15), rect(100, 10));
    let result = resolve(&state, mover, v(4, 10));
    assert_eq!(result.position, v(24, 5));
    assert_eq!(result.velocity, v(4, 5));
}

#[test]
fn nothing_in_the_way_gives_the_whole_movement() {
    let mut state = GameState::new(v(1000, 1000));
    let mover = add(&mut state, v(3, 4), rect(10, 10));
    add(&mut state, v(500, 500), rect(10, 10));
    let result = resolve(&state, mover, v(7, -9));
    assert_eq!(result.position, v(10, -5));
    assert_eq!(result.velocity, v(7, -9));
}

#[test]
fn zero_movement_stays_put() {
    let mut state = GameState::new(v(1000, 1000));
    let mover = add(&mut state, v(20, 5), rect(10, 10));
    add(&mut state, v(0, 15), rect(100, 10));
    let result = resolve(&state, mover, v(0, 0));
    assert_eq!(result.position, v(20, 5));
    assert_eq!(result.velocity, v(0, 0));
}

#[test]
fn box_walks_over_the_seam_between_two_floor_boxes() {
    let mut state = GameState::new(v(1000, 1000));
    let mover = add(&mut state, v(85, 5), rect(10, 10));
    add(&mut state, v(0, 15), rect(100, 10));
    add(&mut state, v(100, 15), rect(100, 10));
    let result = resolve(&state, mover, v(20, 3));
    assert_eq!(result.position, v(105, 5));
    assert_eq!(result.velocity, v(20, 0));
}

#[test]
fn box_is_stopped_by_a_wall_and_keeps_falling() {
    let mut state = GameState::new(v(1000, 1000));
    let mover = add(&mut state, v(0, 0), rect(10, 10));
    add(&mut state, v(15, -50), rect(10, 200));
    let result = resolve(&state, mover, v(10, 4));
    assert_eq!(result.position, v(5, 4));
    assert_eq!(result.velocity, v(5, 4));
}

#[test]
fn box_that_stands_across_a_seam_walks_on() {
    let mut state = GameState::new(v(1000, 1000));
    let mover = add(&mut state, v(95, 5), rect(10, 10));
    add(&mut state, v(0, 15), rect(100, 10));
    add(&mut state, v(100, 15), rect(100, 10));
    let result = resolve(&state, mover, v(4, 3));
    assert_eq!(result.position, v(99, 5));
    assert_eq!(result.velocity, v(4, 0));
    let back = resolve(&state, mover, v(-4, 3));
    assert_eq!(back.position, v(91, 5));
    assert_eq!(back.velocity, v(-4, 0));
}

#[test]
fn box_lands_on_the_corner_of_a_ledge_and_slides_along_its_own_edge() {
    let mut state = GameState::new(v(1000, 1000));
    let mover = add(&mut state, v(95, 0), rect(10, 10));
    add(&mut state, v(0, 15), rect(100, 10));
    let result = resolve(&state, mover, v(2, 10));
    assert_eq!(result.position, v(97, 5));
    assert_eq!(result.velocity, v(2, 5));
}

#[test]
fn box_in_a_corner_stays_there() {
    let mut state = GameState::new(v(1000, 1000));
    let mover = add(&mut state, v(90, 5), rect(10, 10));
    add(&mut state, v(0, 15), rect(200, 10));
    add(&mut state, v(100, 0), rect(10, 15));
    let result = resolve(&state, mover, v(4, 3));
    assert_eq!(result.position, v(90, 5));
    assert_eq!(result.velocity, v(0, 0));
    let away = resolve(&state, mover, v(-4, -3));
    assert_eq!(away.position, v(86, 2));
}

#[test]
fn slanted_segment_turns_a_fall_into_a_slide() {
    let mut state = GameState::new(v(1000, 1000));
    let mover = add(&mut state, v(40, 0), rect(10, 10));
    let slope = Shape::LineSegment(LineSegment::new_left_solid(v(0, 100), v(100, 0)));
    add(&mut state, v(0, 0), slope);
    let result = resolve(&state, mover, v(0, 80));
    assert_eq!(result.position, v(20, 60));
    assert_eq!(result.velocity, v(-20, 60));
}

#[test]
fn box_that_slides_down_a_slope_never_ends_behind_it() {
    let mut state = GameState::new(v(1000, 1000));
    let slope = Shape::LineSegment(LineSegment::new_left_solid(v(0, 300), v(700, 0)));
    add(&mut state, v(0, 0), slope);
    let shape = rect(10, 10);
    let mut position = v(345, 0);
    let id = state.add_static_solid(EntityCommon::new(position, shape));
    for step in 0..200 {
        let mover = ShapePosition { entity_id: id, shape, position };
        let result = resolve(&state, mover, v(3, 7 + step % 5));
        position = result.position;
        let corner = v(position.x + 10, position.y + 10);
        let offset = (corner.x - 0) * (0 - 300) - (corner.y - 300) * (700 - 0);
        assert!(offset >= 0, "corner {:?} is behind the slope after step {}", corner, step);
    }
    assert!(position.x < 345);
}

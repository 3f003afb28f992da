use platformer::axis_aligned_rect::AxisAlignedRect;
use platformer::game::AllShapePositions;
use platformer::game::EntityCommon;
use platformer::game::GameState;
use platformer::line_segment::LineSegment;
use platformer::movement::MovementContext;
use platformer::shape::Shape;
use platformer::shape::ShapePosition;
use platformer::vector::Vector2;

fn v(x: i64, y: i64) -> Vector2 {
    Vector2::new(x, y)
}

struct Lcg(u64);

impl Lcg {
    fn next(&mut self) -> u64 {
        self.0 = self.0.wrapping_mul(6364136223846793005).wrapping_add(1442695040888963407);
        self.0 >> 33
    }

    fn between(&mut self, low: i64, high: i64) -> i64 {
        low + (self.next() % ((high - low + 1) as u64)) as i64
    }
}

fn interiors_overlap(a: (Vector2, Vector2), b: (Vector2, Vector2)) -> bool {
    a.0.x < b.0.x + b.1.x && b.0.x < a.0.x + a.1.x && a.0.y < b.0.y + b.1.y && b.0.y < a.0.y + a.1.y
}

#[test]
fn box_that_wanders_among_boxes_never_ends_inside_one() {
    for seed in 0..40u64 {
        let mut random = Lcg(seed * 7919 + 13);
        let mut state = GameState::new(v(400, 400));
        let size = v(random.between(1, 30), random.between(1, 30));
        let mut position = v(200, 200);
        let mover_shape = Shape::AxisAlignedRect(AxisAlignedRect::new(size));
        let id = state.add_common(EntityCommon::new(position, mover_shape));
        let mut boxes = Vec::new();
        while boxes.len() < 25 {
            let at = v(random.between(-20, 380), random.between(-20, 380));
            let extent = v(random.between(1, 80), random.between(1, 80));
            if interiors_overlap((at, extent), (position, size)) {
                continue;
            }
            let shape = Shape::AxisAlignedRect(AxisAlignedRect::new(extent));
            state.add_static_solid(EntityCommon::new(at, shape));
            boxes.push((at, extent));
        }
        let mut ctx = MovementContext::new();
        for step in 0..400 {
            let movement = v(random.between(-40, 40), random.between(-40, 40));
            let mover = ShapePosition { entity_id: id, shape: mover_shape, position };
            let result =
                ctx.position_after_allowed_movement(mover, movement, &AllShapePositions(&state));
            assert_eq!(result.velocity, result.position.minus(position));
            position = result.position;
            for b in boxes.iter() {
                assert!(
                    !interiors_overlap(*b, (position, size)),
                    "seed {} step {}: box at {:?} is inside {:?} after moving by {:?}",
                    seed,
                    step,
                    position,
                    b,
                    movement
                );
            }
        }
    }
}

#[test]
fn box_that_wanders_among_slanted_segments_never_crosses_one() {
    for seed in 0..40u64 {
        let mut random = Lcg(seed * 104729 + 7);
        let mut state = GameState::new(v(400, 400));
        let size = v(random.between(1, 20), random.between(1, 20));
        let mut position = v(200, 5);
        let mover_shape = Shape::AxisAlignedRect(AxisAlignedRect::new(size));
        let id = state.add_common(EntityCommon::new(position, mover_shape));
        let left = v(0, random.between(200, 380));
        let right = v(400, random.between(200, 380));
        let floor = Shape::LineSegment(LineSegment::new_left_solid(v(-100, left.y), v(500, right.y)));
        state.add_static_solid(EntityCommon::new(v(0, 0), floor));
        let dx = 600;
        let dy = right.y - left.y;
        let mut ctx = MovementContext::new();
        for step in 0..400 {
            let movement = v(random.between(-30, 30), random.between(-10, 60));
            let mover = ShapePosition { entity_id: id, shape: mover_shape, position };
            let result =
                ctx.position_after_allowed_movement(mover, movement, &AllShapePositions(&state));
            position = result.position;
            if position.x < -50 || position.x > 430 {
                position.x = 200;
                position.y = 5;
            }
            for corner in [
                v(position.x, position.y + size.y),
                v(position.x + size.x, position.y + size.y),
            ] {
                let offset = (corner.x + 100) * dy - (corner.y - left.y) * dx;
                assert!(
                    offset >= 0,
                    "seed {} step {}: corner {:?} is behind the floor after moving by {:?}",
                    seed,
                    step,
                    corner,
                    movement
                );
            }
        }
    }
}

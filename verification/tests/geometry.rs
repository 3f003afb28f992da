use platformer::aabb::Aabb;
use platformer::axis_aligned_rect::AxisAlignedRect;
use platformer::collide::for_each_movement_collision;
use platformer::collide::share_channel;
use platformer::collide::Collide;
use platformer::collide::Edge;
use platformer::collide::FLOOR;
use platformer::collide::MAIN;
use platformer::left_solid_edge::divide_toward_zero;
use platformer::left_solid_edge::is_movement_vector;
use platformer::left_solid_edge::CollisionWithSlide;
use platformer::left_solid_edge::LeftSolidEdge;
use platformer::line_segment::LineSegment;
use platformer::line_segment::SolidSide;
use platformer::shape::Shape;
use platformer::shape::ShapePosition;
use platformer::loose_quad_tree::Bounds;
use platformer::loose_quad_tree::LooseQuadTree;
use platformer::vector::Vector2;

fn v(x: i64, y: i64) -> Vector2 {
    Vector2::new(x, y)
}

fn edge(x1: i64, y1: i64, x2: i64, y2: i64) -> LeftSolidEdge {
    LeftSolidEdge::new(v(x1, y1), v(x2, y2))
}

#[test]
fn limits_can_be_tested_before_they_are_asked_for() {
    assert!(v(5, -5).is_within(5));
    assert!(!v(6, 0).is_within(5));
    assert!(!v(0, -6).is_within(5));
    let limit = 1 << 29;
    assert!(AxisAlignedRect::new(v(limit, 0)).is_wf());
    assert!(!AxisAlignedRect::new(v(limit + 1, 0)).is_wf());
    assert!(!AxisAlignedRect::new(v(1, -1)).is_wf());
    assert!(LineSegment::new_left_solid(v(-limit, limit), v(0, 0)).is_wf());
    assert!(!LineSegment::new_left_solid(v(0, 0), v(0, limit + 1)).is_wf());
    assert!(Shape::AxisAlignedRect(AxisAlignedRect::new(v(1, 1))).is_wf());
    assert!(!Shape::LineSegment(LineSegment::new_both_solid(v(-limit - 1, 0), v(0, 0))).is_wf());
    let sp = ShapePosition {
        entity_id: 0,
        shape: Shape::AxisAlignedRect(AxisAlignedRect::new(v(1, 1))),
        position: v(limit, -limit),
    };
    assert!(sp.is_wf());
    assert!(!ShapePosition { position: v(limit + 1, 0), ..sp }.is_wf());
}

#[test]
fn vector_arithmetic() {
    assert_eq!(v(1, 2).plus(v(10, -20)), v(11, -18));
    assert_eq!(v(1, 2).minus(v(10, -20)), v(-9, 22));
    assert_eq!(v(1, -2).negated(), v(-1, 2));
    assert_eq!(Vector2::zero(), v(0, 0));
    assert_eq!(v(2, 3).dot(v(5, 7)), 31);
    assert_eq!(v(2, 3).cross(v(5, 7)), -1);
    assert_eq!(v(3, -4).magnitude2(), 25);
    assert_eq!(v(i64::MIN, i64::MIN).magnitude2(), 1u128 << 127);
}

#[test]
fn division_rounds_toward_zero() {
    assert_eq!(divide_toward_zero(7, 2), 3);
    assert_eq!(divide_toward_zero(-7, 2), -3);
    assert_eq!(divide_toward_zero(6, 3), 2);
    assert_eq!(divide_toward_zero(-6, 3), -2);
    assert_eq!(divide_toward_zero(0, 5), 0);
    assert_eq!(divide_toward_zero(-1, 5), 0);
}

#[test]
fn movement_length_limit() {
    assert!(is_movement_vector(v(0, 0)));
    assert!(is_movement_vector(v(1 << 20, 0)));
    assert!(is_movement_vector(v(0, -(1 << 20))));
    assert!(!is_movement_vector(v(1 << 20, 1)));
    assert!(!is_movement_vector(v((1 << 20) + 1, 0)));
    assert!(is_movement_vector(v(1 << 19, 1 << 19)));
    assert!(!is_movement_vector(v(i64::MIN, i64::MAX)));
}

#[test]
fn boxes_that_touch_intersect() {
    let a = Aabb::new(v(0, 0), v(10, 10));
    let b = Aabb::new(v(10, 10), v(5, 5));
    let c = Aabb::new(v(11, 0), v(5, 5));
    assert!(a.is_intersecting(&b));
    assert!(b.is_intersecting(&a));
    assert!(!a.is_intersecting(&c));
    assert!(!c.is_intersecting(&a));
    assert!(a.is_intersecting(&a));
}

#[test]
fn union_is_the_box_around_both() {
    let a = Aabb::new(v(0, 0), v(10, 10));
    let b = Aabb::new(v(-3, 4), v(5, 20));
    let u = a.union(&b);
    assert_eq!(u, Aabb::new(v(-3, 0), v(13, 24)));
    assert_eq!(b.union(&a), u);
}

#[test]
fn edge_meets_edge_halfway() {
    let moving = edge(10, 0, 0, 0);
    let stationary = edge(0, 5, 10, 5);
    let hit = moving.collide_with_stationary_edge(&stationary, v(0, 10));
    let expected = CollisionWithSlide {
        numerator: 50,
        denominator: 100,
        edge_vector: v(10, 0),
        bump: None,
    };
    assert_eq!(hit, Some(expected));
    let hit = expected;
    assert_eq!(hit.movement_to_collision(v(0, 10)), v(0, 5));
    assert_eq!(hit.movement_following_collision(v(0, 10)), v(0, 5));
    assert_eq!(hit.slide(v(0, 10)), v(0, 0));
    assert_eq!(hit.displacement(v(0, 10)), v(0, 5));
    assert_eq!(hit.displacement_full_movement(v(0, 10)), v(0, 10));
}

#[test]
fn slanted_movement_slides_along_the_edge() {
    let moving = edge(10, 0, 0, 0);
    let stationary = edge(0, 5, 10, 5);
    let hit = moving.collide_with_stationary_edge(&stationary, v(4, 10)).unwrap();
    assert_eq!((hit.numerator, hit.denominator), (50, 100));
    assert_eq!(hit.movement_to_collision(v(4, 10)), v(2, 5));
    assert_eq!(hit.movement_following_collision(v(4, 10)), v(2, 5));
    assert_eq!(hit.slide(v(4, 10)), v(2, 0));
}

#[test]
fn partial_advance_rounds_away_from_the_edge_that_was_struck() {
    let hit = CollisionWithSlide { numerator: 1, denominator: 3, edge_vector: v(3, 4), bump: None };
    assert_eq!(hit.movement_to_collision(v(10, -10)), v(4, -4));
    assert_eq!(hit.movement_following_collision(v(10, -10)), v(6, -6));
    assert_eq!(hit.slide(v(10, -10)), v(0, 0));
    assert_eq!(hit.movement_to_collision(v(-10, 10)), v(-3, 3));
    assert_eq!(hit.movement_following_collision(v(-10, 10)), v(-7, 7));
    assert_eq!(hit.slide(v(-10, 10)), v(0, 1));
    let level = CollisionWithSlide { edge_vector: v(5, 0), ..hit };
    assert_eq!(level.movement_to_collision(v(10, 10)), v(3, 3));
    assert_eq!(level.movement_to_collision(v(-10, -10)), v(-3, -4));
    let upright = CollisionWithSlide { edge_vector: v(0, -5), ..hit };
    assert_eq!(upright.movement_to_collision(v(10, 10)), v(3, 3));
    assert_eq!(upright.movement_to_collision(v(-10, -10)), v(-4, -3));
    assert_eq!(platformer::left_solid_edge::divide_rounded(7, 2, 1), 4);
    assert_eq!(platformer::left_solid_edge::divide_rounded(7, 2, -1), 3);
    assert_eq!(platformer::left_solid_edge::divide_rounded(-7, 2, 1), -3);
    assert_eq!(platformer::left_solid_edge::divide_rounded(-7, 2, -5), -4);
    assert_eq!(platformer::left_solid_edge::divide_rounded(-7, 2, 0), -3);
    assert_eq!(platformer::left_solid_edge::divide_rounded(8, 2, 1), 4);
    assert_eq!(platformer::left_solid_edge::divide_rounded(-8, 2, -1), -4);
}

#[test]
fn corner_that_strikes_a_moving_edge_slides_along_that_edge() {
    let moving = edge(20, 0, 0, 0);
    let pole = edge(10, 50, 10, 5);
    let hit = moving.collide_with_stationary_edge(&pole, v(3, 10)).unwrap();
    assert_eq!((hit.numerator, hit.denominator), (100, 200));
    assert_eq!(hit.edge_vector, v(20, 0));
    assert_eq!(hit.movement_to_collision(v(3, 10)), v(1, 5));
    assert_eq!(hit.slide(v(3, 10)), v(2, 0));
}

#[test]
fn edges_do_not_meet_from_behind_alongside_or_out_of_reach() {
    let moving = edge(10, 0, 0, 0);
    let stationary = edge(0, 5, 10, 5);
    assert_eq!(moving.collide_with_stationary_edge(&stationary, v(0, -10)), None);
    assert_eq!(moving.collide_with_stationary_edge(&stationary, v(10, 0)), None);
    assert_eq!(moving.collide_with_stationary_edge(&stationary, v(0, 4)), None);
    assert_eq!(moving.collide_with_stationary_edge(&stationary, v(0, 0)), None);
    let from_below = edge(0, 10, 10, 10);
    assert_eq!(from_below.collide_with_stationary_edge(&stationary, v(0, -10)), None);
    let beside = edge(30, 0, 20, 0);
    assert_eq!(beside.collide_with_stationary_edge(&stationary, v(0, 10)), None);
}

#[test]
fn resting_contact_is_a_contact_at_once() {
    let moving = edge(10, 5, 0, 5);
    let stationary = edge(0, 5, 10, 5);
    let hit = moving.collide_with_stationary_edge(&stationary, v(0, 1)).unwrap();
    assert_eq!(hit.numerator, 0);
    assert_eq!(hit.movement_to_collision(v(0, 1)), v(0, 0));
}

#[test]
fn contacts_compare_by_fraction() {
    let a = CollisionWithSlide { numerator: 1, denominator: 3, edge_vector: v(1, 0), bump: None };
    let b = CollisionWithSlide { numerator: 2, denominator: 6, edge_vector: v(0, 1), bump: None };
    let c = CollisionWithSlide { numerator: 1, denominator: 2, edge_vector: v(1, 0), bump: None };
    assert!(a.is_as_near_as(&b));
    assert!(!a.is_nearer_than(&b));
    assert!(a.is_nearer_than(&c));
    assert!(!c.is_nearer_than(&a));
    assert!(!a.is_as_near_as(&c));
}

#[test]
fn channels() {
    assert_eq!(MAIN, 1);
    assert_eq!(FLOOR, 2);
    assert!(share_channel(MAIN, MAIN));
    assert!(share_channel(MAIN | FLOOR, FLOOR));
    assert!(!share_channel(MAIN, FLOOR));
    assert!(!share_channel(MAIN, 0));
    let e = Edge::new(v(1, 2), v(3, 4));
    assert_eq!(e.channels, MAIN);
    assert_eq!(e.start(), v(1, 2));
    assert_eq!(e.end(), v(3, 4));
    let f = e.with_channels(FLOOR);
    assert_eq!(f.channels, FLOOR);
    assert_eq!(f.left_solid_edge, e.left_solid_edge);
}

#[test]
fn edges_on_different_channels_never_touch() {
    let moving = Edge::new(v(10, 0), v(0, 0));
    let floor = Edge::new(v(0, 5), v(10, 5)).with_channels(FLOOR);
    assert_eq!(moving.collide(v(0, 0), &floor, v(0, 0), v(0, 10)), None);
    let both = moving.with_channels(MAIN | FLOOR);
    assert!(both.collide(v(0, 0), &floor, v(0, 0), v(0, 10)).is_some());
}

#[test]
fn rectangle_edges_face_the_direction() {
    let r = AxisAlignedRect::new(v(4, 3));
    assert_eq!(r.dimensions(), v(4, 3));
    let top = Edge::new(v(0, 0), v(4, 0));
    let right = Edge::new(v(4, 0), v(4, 3));
    let bottom = Edge::new(v(4, 3), v(0, 3));
    let left = Edge::new(v(0, 3), v(0, 0));
    assert_eq!(r.for_each_left_solid_edge_facing(v(0, 1)), vec![right, bottom, left]);
    assert_eq!(r.for_each_left_solid_edge_facing(v(0, -1)), vec![top, right, left]);
    assert_eq!(r.for_each_left_solid_edge_facing(v(1, 1)), vec![right, bottom]);
    assert_eq!(r.for_each_left_solid_edge_facing(v(-1, -1)), vec![top, left]);
    assert_eq!(r.for_each_left_solid_edge_facing(v(0, 0)), vec![top, right, bottom, left]);
    assert_eq!(r.aabb(v(7, 8)), Aabb::new(v(7, 8), v(4, 3)));
}

#[test]
fn character_and_floor_rectangles() {
    let c = AxisAlignedRect::new_character(v(4, 3));
    let edges = c.for_each_left_solid_edge_facing(v(0, 0));
    assert_eq!(edges.len(), 4);
    assert_eq!(edges[0].channels, MAIN);
    assert_eq!(edges[1].channels, MAIN);
    assert_eq!(edges[2].channels, MAIN | FLOOR);
    assert_eq!(edges[2].left_solid_edge, LeftSolidEdge::new(v(4, 3), v(0, 3)));
    assert_eq!(edges[3].channels, MAIN);
    let f = AxisAlignedRect::new_floor_only(v(4, 3));
    let edges = f.for_each_left_solid_edge_facing(v(0, 0));
    assert_eq!(edges, vec![Edge::new(v(0, 0), v(4, 0)).with_channels(FLOOR)]);
    assert_eq!(f.for_each_left_solid_edge_facing(v(0, 1)), vec![]);
}

#[test]
fn segment_solid_on_both_sides_has_two_edges() {
    let s = LineSegment::new_both_solid(v(0, 0), v(10, 0));
    assert_eq!(s.solid_side, SolidSide::Both);
    assert_eq!(s.vector(), v(10, 0));
    let forward = Edge::new(v(0, -1), v(10, -1));
    let backward = Edge::new(v(10, 1), v(0, 1));
    assert_eq!(s.for_each_left_solid_edge_facing(v(0, 1)), vec![backward]);
    assert_eq!(s.for_each_left_solid_edge_facing(v(0, -1)), vec![forward]);
    assert_eq!(s.for_each_left_solid_edge_facing(v(1, 0)), vec![backward, forward]);
    assert_eq!(s.aabb(v(100, 200)), Aabb::new(v(99, 199), v(12, 2)));
    let slanted = LineSegment::new_both_solid(v(0, 0), v(-3, 5));
    assert_eq!(
        slanted.for_each_left_solid_edge_facing(v(0, 0)),
        vec![Edge::new(v(-4, 4), v(-1, -1)), Edge::new(v(1, 1), v(-2, 6))]
    );
    assert_eq!(slanted.aabb(v(0, 0)), Aabb::new(v(-4, -1), v(5, 7)));
}

#[test]
fn segment_solid_on_its_left_has_one_edge() {
    let s = LineSegment::new_left_solid(v(0, 0), v(10, 0));
    assert_eq!(s.solid_side, SolidSide::Left);
    assert_eq!(s.for_each_left_solid_edge_facing(v(0, -1)), vec![Edge::new(v(0, 0), v(10, 0))]);
    assert_eq!(s.for_each_left_solid_edge_facing(v(0, 1)), vec![]);
    assert_eq!(s.aabb(v(5, 5)), Aabb::new(v(5, 5), v(10, 0)));
    assert_eq!(s.add_vector(v(1, 2)), LineSegment::new_left_solid(v(1, 2), v(11, 2)));
}

#[test]
fn shape_dispatches_to_its_variant() {
    let r = AxisAlignedRect::new(v(4, 3));
    let s = LineSegment::new_left_solid(v(0, 0), v(10, 0));
    assert_eq!(Shape::AxisAlignedRect(r).aabb(v(1, 1)), r.aabb(v(1, 1)));
    assert_eq!(Shape::LineSegment(s).aabb(v(1, 1)), s.aabb(v(1, 1)));
    assert_eq!(
        Shape::AxisAlignedRect(r).for_each_left_solid_edge_facing(v(1, 0)),
        r.for_each_left_solid_edge_facing(v(1, 0))
    );
    assert_eq!(
        Shape::LineSegment(s).for_each_left_solid_edge_facing(v(0, -1)),
        s.for_each_left_solid_edge_facing(v(0, -1))
    );
}

#[test]
fn swept_box_covers_start_and_end() {
    let sp = ShapePosition {
        entity_id: 3,
        shape: Shape::AxisAlignedRect(AxisAlignedRect::new(v(4, 3))),
        position: v(10, 10),
    };
    assert_eq!(sp.aabb(), Aabb::new(v(10, 10), v(4, 3)));
    assert_eq!(sp.movement_aabb(v(-5, 7)), Aabb::new(v(5, 10), v(9, 10)));
    assert_eq!(sp.movement_aabb(v(0, 0)), sp.aabb());
}

#[test]
fn box_against_box_lists_every_contact() {
    let mover = AxisAlignedRect::new(v(10, 10));
    let floor = AxisAlignedRect::new(v(100, 10));
    let found = for_each_movement_collision(&mover, v(20, 0), &floor, v(0, 15), v(0, 10));
    let expected = CollisionWithSlide {
        numerator: 500,
        denominator: 1000,
        edge_vector: v(100, 0),
        bump: None,
    };
    assert_eq!(found.len(), 3);
    for contact in found.iter() {
        assert!(contact.is_as_near_as(&expected));
        assert_eq!(contact.edge_vector, v(100, 0));
        assert_eq!(contact.movement_to_collision(v(0, 10)), v(0, 5));
    }
    assert_eq!(found[1], expected);
    let none = for_each_movement_collision(&mover, v(20, 0), &floor, v(0, 15), v(0, -10));
    assert_eq!(none, vec![]);
}

#[test]
fn quad_tree_finds_what_intersects_node_by_node() {
    let mut tree = LooseQuadTree::new(v(1600, 1600));
    assert_eq!(tree.bounds(), Bounds { origin: v(0, 0), size: v(1600, 1600) });
    assert_eq!(tree.len(), 0);
    let small = (Aabb::new(v(10, 10), v(50, 50)), 1);
    let big = (Aabb::new(v(0, 0), v(1000, 1000)), 2);
    let middle = (Aabb::new(v(150, 10), v(150, 150)), 3);
    let far = (Aabb::new(v(450, 450), v(50, 50)), 4);
    let outside = (Aabb::new(v(-5, 10), v(10, 10)), 5);
    let away = (Aabb::new(v(1500, 1500), v(10, 10)), 6);
    for (aabb, id) in [small, big, middle, far, outside, away] {
        tree.insert(aabb, id);
    }
    assert_eq!(tree.len(), 6);
    let found = tree.for_each_intersection(&Aabb::new(v(0, 0), v(500, 500)));
    assert_eq!(found, vec![big, outside, middle, small, far]);
    let found = tree.for_each_intersection(&Aabb::new(v(60, 60), v(20, 20)));
    assert_eq!(found, vec![big, small]);
    let found = tree.for_each_intersection(&Aabb::new(v(1505, 1505), v(1, 1)));
    assert_eq!(found, vec![away]);
    let found = tree.for_each_intersection(&Aabb::new(v(-50, -50), v(49, 49)));
    assert_eq!(found, vec![]);
    let found = tree.for_each_intersection(&Aabb::new(v(-50, -50), v(50, 50)));
    assert_eq!(found, vec![big]);
    tree.clear();
    assert_eq!(tree.len(), 0);
    assert_eq!(tree.for_each_intersection(&Aabb::new(v(0, 0), v(500, 500))), vec![]);
    assert_eq!(tree.bounds(), Bounds { origin: v(0, 0), size: v(1600, 1600) });
}

#[test]
fn quad_tree_finds_boxes_on_the_borders_of_cells() {
    let mut tree = LooseQuadTree::new(v(1600, 1600));
    let mut all = Vec::new();
    let mut id = 0;
    for x in [0, 99, 100, 101, 199, 200, 799, 800, 1599] {
        for size in [0, 1, 100, 101, 200, 800] {
            let entry = (Aabb::new(v(x, x / 2), v(size, size)), id);
            tree.insert(entry.0, entry.1);
            all.push(entry);
            id += 1;
        }
    }
    for qx in [-1, 0, 99, 100, 199, 200, 201, 300, 799, 800, 900, 1599, 1700] {
        for qsize in [0, 1, 100, 1000] {
            let query = Aabb::new(v(qx, qx / 2), v(qsize, qsize));
            let mut found = tree.for_each_intersection(&query);
            let mut wanted: Vec<(Aabb, u32)> =
                all.iter().filter(|e| e.0.is_intersecting(&query)).cloned().collect();
            found.sort_by_key(|e| e.1);
            wanted.sort_by_key(|e| e.1);
            assert_eq!(found, wanted);
        }
    }
}

#[test]
fn boxes_belong_to_the_deepest_node_that_is_no_smaller() {
    let bounds = Bounds { origin: v(0, 0), size: v(1600, 1600) };
    assert_eq!(bounds.cell_index(&Aabb::new(v(10, 10), v(50, 50))), 85);
    assert_eq!(bounds.cell_index(&Aabb::new(v(10, 10), v(100, 100))), 85);
    assert_eq!(bounds.cell_index(&Aabb::new(v(10, 10), v(101, 100))), 21);
    assert_eq!(bounds.cell_index(&Aabb::new(v(450, 450), v(50, 50))), 85 + 4 * 16 + 4);
    assert_eq!(bounds.cell_index(&Aabb::new(v(1599, 1599), v(0, 0))), 340);
    assert_eq!(bounds.cell_index(&Aabb::new(v(1599, 0), v(300, 10))), 5 + 3);
    assert_eq!(bounds.cell_index(&Aabb::new(v(0, 900), v(10, 800))), 1 + 2);
    assert_eq!(bounds.cell_index(&Aabb::new(v(0, 0), v(801, 1))), 0);
    assert_eq!(bounds.cell_index(&Aabb::new(v(-1, 0), v(1, 1))), 0);
    assert_eq!(bounds.cell_index(&Aabb::new(v(1600, 0), v(1, 1))), 0);
    let odd = Bounds { origin: v(0, 0), size: v(10, 3) };
    assert_eq!(odd.cell_index(&Aabb::new(v(9, 2), v(0, 0))), 85 + 2 * 16 + 9);
    assert_eq!(LooseQuadTree::new(v(-4, 1 << 40)).bounds().size, v(1, 1 << 31));
}

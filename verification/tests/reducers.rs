use platformer::best_of::MultiBest;
use platformer::best_of::SingleBest;
use platformer::collide::Collision;
use platformer::left_solid_edge::CollisionWithSlide;
use platformer::vector::Vector2;

fn told(list: &[Collision]) -> Vec<(u32, i64, i64)> {
    list.iter()
        .map(|c| {
            (
                c.stationary_entity_id,
                c.left_solid_edge_collision.numerator,
                c.left_solid_edge_collision.denominator,
            )
        })
        .collect()
}

fn contact(entity: u32, numerator: i64, denominator: i64) -> Collision {
    Collision {
        stationary_entity_id: entity,
        left_solid_edge_collision: CollisionWithSlide {
            numerator,
            denominator,
            edge_vector: Vector2::new(1, 0),
            bump: None,
        },
    }
}

#[test]
fn multi_best_keeps_exactly_the_tied_nearest() {
    let mut set = MultiBest::new();
    set.insert(contact(10, 3, 4));
    set.insert(contact(11, 1, 4));
    set.insert(contact(12, 1, 4));
    set.insert(contact(13, 2, 4));
    let held = set.iter();
    assert_eq!(told(&held), vec![(11, 1, 4), (12, 1, 4)]);
    assert_eq!(told(&set.first().into_iter().collect::<Vec<_>>()), vec![(11, 1, 4)]);
    assert!(!set.is_empty());
}

#[test]
fn multi_best_ties_compare_fractions_not_their_terms() {
    let mut set = MultiBest::new();
    set.insert(contact(1, 2, 4));
    set.insert(contact(2, 1, 2));
    set.insert(contact(3, 3, 6));
    set.insert(contact(4, 2, 3));
    assert_eq!(told(&set.iter()), vec![(1, 2, 4), (2, 1, 2), (3, 3, 6)]);
}

#[test]
fn multi_best_drain_hands_out_and_empties() {
    let mut set = MultiBest::new();
    set.insert(contact(1, 1, 2));
    set.insert(contact(2, 1, 3));
    let drained = set.drain();
    assert_eq!(told(&drained), vec![(2, 1, 3)]);
    assert!(set.is_empty());
    assert!(set.first().is_none());
    assert_eq!(told(&set.iter()), vec![]);
}

#[test]
fn multi_best_clear_forgets() {
    let mut set = MultiBest::new();
    set.insert(contact(1, 0, 1));
    set.clear();
    assert!(set.is_empty());
    set.insert(contact(2, 1, 1));
    assert_eq!(told(&set.iter()), vec![(2, 1, 1)]);
}

#[test]
fn single_best_keeps_the_later_of_two_ties() {
    let mut set = SingleBest::new();
    set.insert(contact(10, 3, 4));
    set.insert(contact(11, 1, 4));
    set.insert(contact(12, 1, 4));
    set.insert(contact(13, 2, 4));
    assert_eq!(told(&set.first().into_iter().collect::<Vec<_>>()), vec![(12, 1, 4)]);
    assert_eq!(told(&set.iter()), vec![(12, 1, 4)]);
    assert!(!set.is_empty());
}

#[test]
fn single_best_drain_and_clear() {
    let mut set = SingleBest::new();
    assert!(set.is_empty());
    assert!(set.first().is_none());
    set.insert(contact(1, 1, 2));
    assert_eq!(told(&set.drain()), vec![(1, 1, 2)]);
    assert!(set.is_empty());
    set.insert(contact(2, 1, 2));
    set.clear();
    assert_eq!(told(&set.iter()), vec![]);
}

#[test]
fn contacts_are_ordered_by_their_fraction_alone() {
    let near = contact(7, 1, 3);
    let far = contact(1, 1, 2);
    assert!(near < far);
    assert!(far > near);
    assert!(contact(5, 2, 6) <= near);
    assert!(contact(5, 2, 6) >= near);
    assert!(near == contact(9, 2, 6));
    assert!(near != far);
    assert_eq!(near.partial_cmp(&far), Some(std::cmp::Ordering::Less));
    assert_eq!(near.partial_cmp(&contact(9, 2, 6)), Some(std::cmp::Ordering::Equal));
}

//! Edges with collision channels, and contacts ordered by how early they
//! come.

use vstd::prelude::*;
use vstd::std_specs::cmp::PartialEqSpecImpl;
use vstd::std_specs::cmp::PartialOrdSpecImpl;
use std::cmp::Ordering;
use crate::left_solid_edge::CollisionWithSlide;
use crate::left_solid_edge::LeftSolidEdge;
use crate::aabb::Aabb;
use crate::best_of::MultiBest;
use crate::best_of::SingleBest;
use crate::best_of::all_wf;
use crate::best_of::multi_after_all;
use crate::best_of::single_after_all;
use crate::left_solid_edge::is_movement;
use crate::left_solid_edge::lemma_movement_within;
use crate::movement::EntityId;
use crate::vector::Vector2;
use crate::vector::REACH_LIMIT;

verus! {

/// The channel of ordinary solids.
pub const MAIN: u32 = 1;

/// The channel of platforms that only carry what lands on them.
pub const FLOOR: u32 = 2;

/// Two channel masks interact when they share a bit.
pub open spec fn channels_interact(a: u32, b: u32) -> bool {
    a & b != 0
}

/// Tells whether two channel masks share a bit.
pub fn share_channel(a: u32, b: u32) -> (r: bool)
    ensures
        r == channels_interact(a, b),
{
    a & b != 0
}

/// A solid edge of a shape, relative to where the shape stands, with the
/// channels it collides on.
#[derive(Clone, Copy, Debug, PartialEq, Eq, Structural)]
pub struct Edge {
    pub left_solid_edge: LeftSolidEdge,
    pub channels: u32,
}

impl Edge {
    /// An edge from `start` to `end` on the main channel.
    pub fn new(start: Vector2, end: Vector2) -> (e: Edge)
        ensures
            e.left_solid_edge.start == start,
            e.left_solid_edge.end == end,
            e.channels == MAIN,
    {
        Edge { left_solid_edge: LeftSolidEdge::new(start, end), channels: MAIN }
    }

    /// The same edge on other channels.
    pub fn with_channels(self, channels: u32) -> (e: Edge)
        ensures
            e.left_solid_edge == self.left_solid_edge,
            e.channels == channels,
    {
        Edge { left_solid_edge: self.left_solid_edge, channels }
    }

    /// Both ends lie within reach of the shape's position.
    pub open spec fn wf(self) -> bool {
        &&& self.left_solid_edge.start.within(REACH_LIMIT as int)
        &&& self.left_solid_edge.end.within(REACH_LIMIT as int)
    }

    /// The edge in the world, for a shape that stands at `position`.
    pub open spec fn placed(self, position: Vector2) -> LeftSolidEdge {
        LeftSolidEdge {
            start: self.left_solid_edge.start.spec_plus(position),
            end: self.left_solid_edge.end.spec_plus(position),
        }
    }

    /// The first contact of this edge, which belongs to a shape at `position`
    /// that moves by `movement`, with the edge `stationary` of a shape at
    /// `stationary_position`. Edges that share no channel never touch.
    pub open spec fn spec_collide(
        self,
        position: Vector2,
        stationary: Edge,
        stationary_position: Vector2,
        movement: Vector2,
    ) -> Option<CollisionWithSlide> {
        if channels_interact(self.channels, stationary.channels) {
            self.placed(position).spec_collide(stationary.placed(stationary_position), movement)
        } else {
            None
        }
    }

    /// The first contact of this edge, which belongs to a shape at `position`
    /// that moves by `movement`, with the edge `stationary` of a shape at
    /// `stationary_position`.
    pub fn collide(
        &self,
        position: Vector2,
        stationary: &Edge,
        stationary_position: Vector2,
        movement: Vector2,
    ) -> (r: Option<CollisionWithSlide>)
        requires
            self.wf(),
            stationary.wf(),
            position.within(REACH_LIMIT as int),
            stationary_position.within(REACH_LIMIT as int),
            is_movement(movement),
        ensures
            r == self.spec_collide(position, *stationary, stationary_position, movement),
            r matches Some(c) ==> c.wf(),
            !channels_interact(self.channels, stationary.channels) ==> r is None,
    {
        if share_channel(self.channels, stationary.channels) {
            let moving_edge = self.left_solid_edge.add_vector(position);
            let stationary_edge = stationary.left_solid_edge.add_vector(stationary_position);
            moving_edge.collide_with_stationary_edge(&stationary_edge, movement)
        } else {
            None
        }
    }

    pub fn start(&self) -> (p: Vector2)
        ensures
            p == self.left_solid_edge.start,
    {
        self.left_solid_edge.start
    }

    pub fn end(&self) -> (p: Vector2)
        ensures
            p == self.left_solid_edge.end,
    {
        self.left_solid_edge.end
    }
}

/// A contact, and the entity that was met. Contacts are compared by how
/// early they come alone: two contacts are equal when they come at the same
/// time, whatever was met.
#[derive(Clone, Copy, Debug)]
pub struct Collision {
    pub stationary_entity_id: EntityId,
    pub left_solid_edge_collision: CollisionWithSlide,
}

impl Collision {
    pub open spec fn wf(self) -> bool {
        self.left_solid_edge_collision.wf()
    }

    /// This contact comes strictly before `other`.
    pub open spec fn nearer_than(self, other: Collision) -> bool {
        self.left_solid_edge_collision.nearer_than(other.left_solid_edge_collision)
    }

    /// This contact comes exactly when `other` does.
    pub open spec fn as_near_as(self, other: Collision) -> bool {
        self.left_solid_edge_collision.as_near_as(other.left_solid_edge_collision)
    }
}

impl PartialEqSpecImpl for Collision {
    open spec fn obeys_eq_spec() -> bool {
        true
    }

    open spec fn eq_spec(&self, other: &Collision) -> bool {
        self.as_near_as(*other)
    }
}

impl PartialEq for Collision {
    fn eq(&self, other: &Collision) -> (r: bool) {
        self.left_solid_edge_collision.is_as_near_as(&other.left_solid_edge_collision)
    }
}

impl PartialOrdSpecImpl for Collision {
    open spec fn obeys_partial_cmp_spec() -> bool {
        true
    }

    open spec fn partial_cmp_spec(&self, other: &Collision) -> Option<Ordering> {
        if self.nearer_than(*other) {
            Some(Ordering::Less)
        } else if self.as_near_as(*other) {
            Some(Ordering::Equal)
        } else {
            Some(Ordering::Greater)
        }
    }
}

impl PartialOrd for Collision {
    fn partial_cmp(&self, other: &Collision) -> (r: Option<Ordering>) {
        if self.left_solid_edge_collision.is_nearer_than(&other.left_solid_edge_collision) {
            Some(Ordering::Less)
        } else if self.left_solid_edge_collision.is_as_near_as(&other.left_solid_edge_collision) {
            Some(Ordering::Equal)
        } else {
            Some(Ordering::Greater)
        }
    }
}


/// The contacts of one moving edge with each of `stationary_edges`, in their
/// order.
pub open spec fn row_collisions(
    moving: Edge,
    position: Vector2,
    stationary_edges: Seq<Edge>,
    stationary_position: Vector2,
    movement: Vector2,
) -> Seq<CollisionWithSlide>
    decreases stationary_edges.len(),
{
    if stationary_edges.len() == 0 {
        Seq::empty()
    } else {
        let before = row_collisions(
            moving,
            position,
            stationary_edges.drop_last(),
            stationary_position,
            movement,
        );
        match moving.spec_collide(
            position,
            stationary_edges.last(),
            stationary_position,
            movement,
        ) {
            Some(c) => before.push(c),
            None => before,
        }
    }
}

/// The contacts of each of `moving_edges` with each of `stationary_edges`:
/// those of the first moving edge first.
pub open spec fn all_collisions(
    moving_edges: Seq<Edge>,
    position: Vector2,
    stationary_edges: Seq<Edge>,
    stationary_position: Vector2,
    movement: Vector2,
) -> Seq<CollisionWithSlide>
    decreases moving_edges.len(),
{
    if moving_edges.len() == 0 {
        Seq::empty()
    } else {
        all_collisions(
            moving_edges.drop_last(),
            position,
            stationary_edges,
            stationary_position,
            movement,
        ) + row_collisions(
            moving_edges.last(),
            position,
            stationary_edges,
            stationary_position,
            movement,
        )
    }
}

/// The contacts `collisions`, each with the entity that was met.
pub open spec fn tagged(id: EntityId, collisions: Seq<CollisionWithSlide>) -> Seq<Collision> {
    Seq::new(
        collisions.len(),
        |i: int| Collision { stationary_entity_id: id, left_solid_edge_collision: collisions[i] },
    )
}

/// What can collide: a shape that has a bounding box and solid edges.
pub trait Collide: Sized {
    /// The shape is small enough to compute with.
    spec fn wf(&self) -> bool;

    /// The bounding box of the shape when it stands at `top_left`.
    spec fn spec_aabb(&self, top_left: Vector2) -> Aabb;

    /// The edges, relative to the shape's position, whose outward normal does
    /// not point away from `direction`.
    spec fn edges_facing(&self, direction: Vector2) -> Seq<Edge>;

    /// The bounding box of the shape when it stands at `top_left`.
    fn aabb(&self, top_left: Vector2) -> (b: Aabb)
        requires
            self.wf(),
            top_left.within(REACH_LIMIT as int),
        ensures
            b == self.spec_aabb(top_left),
            b.wf(),
    ;

    /// The edges that face `direction`.
    fn for_each_left_solid_edge_facing(&self, direction: Vector2) -> (edges: Vec<Edge>)
        requires
            self.wf(),
            direction.within(i64::MAX as int),
        ensures
            edges@ == self.edges_facing(direction),
            forall|i: int| 0 <= i < edges@.len() ==> (#[trigger] edges@[i]).wf(),
    ;
}

/// Every contact of `moving_shape`, which stands at `position` and moves by
/// `movement`, with `stationary_shape` at `stationary_position`: its
/// edges that face the movement against the other's edges that face the
/// other way.
pub open spec fn movement_collisions<M: Collide, S: Collide>(
    moving_shape: &M,
    position: Vector2,
    stationary_shape: &S,
    stationary_position: Vector2,
    movement: Vector2,
) -> Seq<CollisionWithSlide> {
    all_collisions(
        moving_shape.edges_facing(movement),
        position,
        stationary_shape.edges_facing(movement.spec_negated()),
        stationary_position,
        movement,
    )
}

/// Every contact of `moving_shape`, which stands at `position` and moves by
/// `movement`, with `stationary_shape` at `stationary_position`.
pub fn for_each_movement_collision<M: Collide, S: Collide>(
    moving_shape: &M,
    position: Vector2,
    stationary_shape: &S,
    stationary_position: Vector2,
    movement: Vector2,
) -> (found: Vec<CollisionWithSlide>)
    requires
        moving_shape.wf(),
        stationary_shape.wf(),
        position.within(REACH_LIMIT as int),
        stationary_position.within(REACH_LIMIT as int),
        is_movement(movement),
    ensures
        found@ == movement_collisions(
            moving_shape,
            position,
            stationary_shape,
            stationary_position,
            movement,
        ),
        forall|i: int| 0 <= i < found@.len() ==> (#[trigger] found@[i]).wf(),
{
    proof {
        lemma_movement_within(movement);
    }
    let moving_edges = moving_shape.for_each_left_solid_edge_facing(movement);
    let stationary_edges = stationary_shape.for_each_left_solid_edge_facing(
        movement.negated(),
    );
    let mut found: Vec<CollisionWithSlide> = Vec::new();
    let mut i: usize = 0;
    while i < moving_edges.len()
        invariant
            0 <= i <= moving_edges@.len(),
            position.within(REACH_LIMIT as int),
            stationary_position.within(REACH_LIMIT as int),
            is_movement(movement),
            forall|k: int| 0 <= k < moving_edges@.len() ==> (#[trigger] moving_edges@[k]).wf(),
            forall|k: int|
                0 <= k < stationary_edges@.len() ==> (#[trigger] stationary_edges@[k]).wf(),
            found@ == all_collisions(
                moving_edges@.take(i as int),
                position,
                stationary_edges@,
                stationary_position,
                movement,
            ),
            forall|k: int| 0 <= k < found@.len() ==> (#[trigger] found@[k]).wf(),
        decreases moving_edges@.len() - i,
    {
        let moving = moving_edges[i];
        let ghost before = found@;
        let mut j: usize = 0;
        while j < stationary_edges.len()
            invariant
                0 <= j <= stationary_edges@.len(),
                0 <= i < moving_edges@.len(),
                moving == moving_edges@[i as int],
                moving.wf(),
                position.within(REACH_LIMIT as int),
                stationary_position.within(REACH_LIMIT as int),
                is_movement(movement),
                forall|k: int|
                    0 <= k < stationary_edges@.len() ==> (#[trigger] stationary_edges@[k]).wf(),
                found@ == before + row_collisions(
                    moving,
                    position,
                    stationary_edges@.take(j as int),
                    stationary_position,
                    movement,
                ),
                forall|k: int| 0 <= k < found@.len() ==> (#[trigger] found@[k]).wf(),
            decreases stationary_edges@.len() - j,
        {
            let stationary = stationary_edges[j];
            proof {
                let upto = stationary_edges@.take(j as int + 1);
                assert(upto.drop_last() =~= stationary_edges@.take(j as int));
                assert(upto.last() == stationary);
            }
            let ghost row = row_collisions(
                moving,
                position,
                stationary_edges@.take(j as int),
                stationary_position,
                movement,
            );
            match moving.collide(position, &stationary, stationary_position, movement) {
                Some(c) => {
                    found.push(c);
                    assert(found@ =~= before + row.push(c));
                },
                None => {},
            }
            j += 1;
        }
        proof {
            assert(stationary_edges@.take(j as int) =~= stationary_edges@);
            let upto = moving_edges@.take(i as int + 1);
            assert(upto.drop_last() =~= moving_edges@.take(i as int));
            assert(upto.last() == moving);
        }
        i += 1;
    }
    proof {
        assert(moving_edges@.take(i as int) =~= moving_edges@);
    }
    found
}

/// Offers every contact of `moving_shape` with `stationary_shape`, which
/// belongs to the entity `stationary_entity_id`, to both reducers.
pub fn movement_collision_test<M: Collide, S: Collide>(
    moving_shape: &M,
    position: Vector2,
    stationary_shape: &S,
    stationary_position: Vector2,
    stationary_entity_id: EntityId,
    movement: Vector2,
    closest_collisions: &mut MultiBest,
    nearest_collision: &mut SingleBest,
)
    requires
        moving_shape.wf(),
        stationary_shape.wf(),
        position.within(REACH_LIMIT as int),
        stationary_position.within(REACH_LIMIT as int),
        is_movement(movement),
    ensures
        all_wf(old(closest_collisions)@) ==> all_wf(final(closest_collisions)@),
        (old(nearest_collision)@ matches Some(c) ==> c.wf()) ==> (final(nearest_collision)@ matches Some(
            c,
        ) ==> c.wf()),
        final(closest_collisions)@ == multi_after_all(
            old(closest_collisions)@,
            tagged(
                stationary_entity_id,
                movement_collisions(
                    moving_shape,
                    position,
                    stationary_shape,
                    stationary_position,
                    movement,
                ),
            ),
        ),
        final(nearest_collision)@ == single_after_all(
            old(nearest_collision)@,
            tagged(
                stationary_entity_id,
                movement_collisions(
                    moving_shape,
                    position,
                    stationary_shape,
                    stationary_position,
                    movement,
                ),
            ),
        ),
{
    let found = for_each_movement_collision(
        moving_shape,
        position,
        stationary_shape,
        stationary_position,
        movement,
    );
    let ghost items = tagged(stationary_entity_id, found@);
    let mut i: usize = 0;
    while i < found.len()
        invariant
            0 <= i <= found@.len(),
            items == tagged(stationary_entity_id, found@),
            forall|k: int| 0 <= k < found@.len() ==> (#[trigger] found@[k]).wf(),
            all_wf(old(closest_collisions)@) ==> all_wf(closest_collisions@),
            (old(nearest_collision)@ matches Some(c) ==> c.wf()) ==> (nearest_collision@ matches Some(
                c,
            ) ==> c.wf()),
            closest_collisions@ == multi_after_all(
                old(closest_collisions)@,
                items.take(i as int),
            ),
            nearest_collision@ == single_after_all(
                old(nearest_collision)@,
                items.take(i as int),
            ),
        decreases found@.len() - i,
    {
        let collision = Collision {
            stationary_entity_id,
            left_solid_edge_collision: found[i],
        };
        proof {
            let upto = items.take(i as int + 1);
            assert(upto.drop_last() =~= items.take(i as int));
            assert(upto.last() == collision);
        }
        closest_collisions.insert(collision);
        nearest_collision.insert(collision);
        i += 1;
    }
    proof {
        assert(items.take(i as int) =~= items);
    }
}


/// Edges that share no channel never touch: where no moving edge shares a
/// channel with a stationary one, there is no contact, whatever the
/// positions and the movement.
pub proof fn lemma_disjoint_channels_never_collide(
    moving_edges: Seq<Edge>,
    position: Vector2,
    stationary_edges: Seq<Edge>,
    stationary_position: Vector2,
    movement: Vector2,
)
    requires
        forall|i: int, j: int|
            0 <= i < moving_edges.len() && 0 <= j < stationary_edges.len() ==> !channels_interact(
                (#[trigger] moving_edges[i]).channels,
                (#[trigger] stationary_edges[j]).channels,
            ),
    ensures
        all_collisions(moving_edges, position, stationary_edges, stationary_position, movement)
            == Seq::<CollisionWithSlide>::empty(),
    decreases moving_edges.len(), stationary_edges.len(),
{
    if moving_edges.len() > 0 {
        let moving = moving_edges.last();
        assert(moving == moving_edges[moving_edges.len() - 1]);
        lemma_disjoint_channels_never_collide(
            moving_edges.drop_last(),
            position,
            stationary_edges,
            stationary_position,
            movement,
        );
        lemma_row_without_contact(
            moving,
            position,
            stationary_edges,
            stationary_position,
            movement,
        );
        assert(Seq::<CollisionWithSlide>::empty() + Seq::<CollisionWithSlide>::empty()
            =~= Seq::<CollisionWithSlide>::empty());
    }
}

/// A row in which no pair of edges touches holds no contact.
pub proof fn lemma_row_without_contact(
    moving: Edge,
    position: Vector2,
    stationary_edges: Seq<Edge>,
    stationary_position: Vector2,
    movement: Vector2,
)
    requires
        forall|j: int|
            0 <= j < stationary_edges.len() ==> moving.spec_collide(
                position,
                #[trigger] stationary_edges[j],
                stationary_position,
                movement,
            ) is None,
    ensures
        row_collisions(moving, position, stationary_edges, stationary_position, movement)
            == Seq::<CollisionWithSlide>::empty(),
    decreases stationary_edges.len(),
{
    if stationary_edges.len() > 0 {
        assert(stationary_edges.last() == stationary_edges[stationary_edges.len() - 1]);
        lemma_row_without_contact(
            moving,
            position,
            stationary_edges.drop_last(),
            stationary_position,
            movement,
        );
    }
}

/// Nothing touches anything while it does not move.
pub proof fn lemma_no_movement_no_collisions(
    moving_edges: Seq<Edge>,
    position: Vector2,
    stationary_edges: Seq<Edge>,
    stationary_position: Vector2,
)
    ensures
        all_collisions(
            moving_edges,
            position,
            stationary_edges,
            stationary_position,
            Vector2 { x: 0, y: 0 },
        ) == Seq::<CollisionWithSlide>::empty(),
    decreases moving_edges.len(),
{
    let still = Vector2 { x: 0, y: 0 };
    if moving_edges.len() > 0 {
        let moving = moving_edges.last();
        lemma_no_movement_no_collisions(
            moving_edges.drop_last(),
            position,
            stationary_edges,
            stationary_position,
        );
        assert forall|j: int| 0 <= j < stationary_edges.len() implies moving.spec_collide(
            position,
            #[trigger] stationary_edges[j],
            stationary_position,
            still,
        ) is None by {
            let m = moving.placed(position);
            let s = stationary_edges[j].placed(stationary_position);
            crate::left_solid_edge::lemma_still_point_meets_nothing(s, m.start);
            crate::left_solid_edge::lemma_still_point_meets_nothing(s, m.end);
            crate::left_solid_edge::lemma_still_point_meets_nothing(m, s.start);
            crate::left_solid_edge::lemma_still_point_meets_nothing(m, s.end);
        }
        lemma_row_without_contact(moving, position, stationary_edges, stationary_position, still);
        assert(Seq::<CollisionWithSlide>::empty() + Seq::<CollisionWithSlide>::empty()
            =~= Seq::<CollisionWithSlide>::empty());
    }
}

/// A platform that only carries what lands on it never stops a box that is
/// on the main channel alone.
pub proof fn lemma_floor_only_ignores_main(
    mover: crate::axis_aligned_rect::AxisAlignedRect,
    position: Vector2,
    platform: crate::axis_aligned_rect::AxisAlignedRect,
    platform_position: Vector2,
    movement: Vector2,
)
    requires
        mover.side_channels() == (MAIN, MAIN, MAIN, MAIN),
        platform.side_channels() == (FLOOR, 0u32, 0u32, 0u32),
    ensures
        movement_collisions(&mover, position, &platform, platform_position, movement)
            == Seq::<CollisionWithSlide>::empty(),
{
    let moving_edges = mover.edges_facing(movement);
    let stationary_edges = platform.edges_facing(movement.spec_negated());
    assert(1u32 & 2u32 == 0u32) by (bit_vector);
    assert(1u32 & 0u32 == 0u32) by (bit_vector);
    assert forall|i: int, j: int|
        0 <= i < moving_edges.len() && 0 <= j < stationary_edges.len() implies !channels_interact(
        (#[trigger] moving_edges[i]).channels,
        (#[trigger] stationary_edges[j]).channels,
    ) by {
        assert(moving_edges[i].channels == MAIN);
        assert(stationary_edges[j].channels == FLOOR || stationary_edges[j].channels == 0);
    }
    lemma_disjoint_channels_never_collide(
        moving_edges,
        position,
        stationary_edges,
        platform_position,
        movement,
    );
}


/// No contact of `contacts` asks for a bump.
pub open spec fn none_asks_for_bump(contacts: Seq<CollisionWithSlide>) -> bool {
    forall|k: int| 0 <= k < contacts.len() ==> (#[trigger] contacts[k]).bump is None
}

/// The contacts of edges with edges ask for no bump: they are exact, and
/// need no correction.
pub proof fn lemma_contacts_ask_for_no_bump(
    moving_edges: Seq<Edge>,
    position: Vector2,
    stationary_edges: Seq<Edge>,
    stationary_position: Vector2,
    movement: Vector2,
)
    ensures
        none_asks_for_bump(
            all_collisions(
                moving_edges,
                position,
                stationary_edges,
                stationary_position,
                movement,
            ),
        ),
    decreases moving_edges.len(),
{
    if moving_edges.len() > 0 {
        lemma_contacts_ask_for_no_bump(
            moving_edges.drop_last(),
            position,
            stationary_edges,
            stationary_position,
            movement,
        );
        lemma_row_asks_for_no_bump(
            moving_edges.last(),
            position,
            stationary_edges,
            stationary_position,
            movement,
        );
    }
}

proof fn lemma_row_asks_for_no_bump(
    moving: Edge,
    position: Vector2,
    stationary_edges: Seq<Edge>,
    stationary_position: Vector2,
    movement: Vector2,
)
    ensures
        none_asks_for_bump(
            row_collisions(moving, position, stationary_edges, stationary_position, movement),
        ),
    decreases stationary_edges.len(),
{
    if stationary_edges.len() > 0 {
        lemma_row_asks_for_no_bump(
            moving,
            position,
            stationary_edges.drop_last(),
            stationary_position,
            movement,
        );
    }
}

} // verus!

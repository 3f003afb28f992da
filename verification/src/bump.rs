//! The sideways correction that a set of tied contacts asks for.

use vstd::prelude::*;
use crate::collide::Collision;
use crate::left_solid_edge::is_movement;
use crate::vector::Vector2;

verus! {

/// A small displacement to apply before the rest of a movement is tried.
#[derive(Clone, Copy, Debug, PartialEq, Eq, Structural)]
pub struct Bump {
    vector: Vector2,
}

impl Bump {
    pub closed spec fn spec_vector(self) -> Vector2 {
        self.vector
    }

    pub fn new(vector: Vector2) -> (b: Bump)
        ensures
            b.spec_vector() == vector,
    {
        Bump { vector }
    }

    pub fn vector(&self) -> (v: Vector2)
        ensures
            v == self.spec_vector(),
    {
        self.vector
    }
}

/// The longest of the corrections that the contacts ask for; the last of
/// them where several are longest, and none where no contact asks for one.
pub open spec fn spec_max_bump(collisions: Seq<Collision>) -> Option<Vector2>
    decreases collisions.len(),
{
    if collisions.len() == 0 {
        None
    } else {
        let before = spec_max_bump(collisions.drop_last());
        match (collisions.last().left_solid_edge_collision.bump, before) {
            (None, _) => before,
            (Some(b), None) => Some(b),
            (Some(b), Some(kept)) => if b.spec_magnitude2() >= kept.spec_magnitude2() {
                Some(b)
            } else {
                Some(kept)
            },
        }
    }
}

/// The longest of the corrections that the contacts ask for.
pub fn max_bump(collisions: &Vec<Collision>) -> (r: Option<Bump>)
    requires
        forall|k: int| 0 <= k < collisions@.len() ==> (#[trigger] collisions@[k]).wf(),
    ensures
        match r {
            Some(b) => spec_max_bump(collisions@) == Some(b.spec_vector()) && is_movement(
                b.spec_vector(),
            ),
            None => spec_max_bump(collisions@) is None,
        },
{
    let mut best: Option<Vector2> = None;
    let mut i: usize = 0;
    while i < collisions.len()
        invariant
            0 <= i <= collisions@.len(),
            forall|k: int| 0 <= k < collisions@.len() ==> (#[trigger] collisions@[k]).wf(),
            best == spec_max_bump(collisions@.take(i as int)),
            best matches Some(b) ==> is_movement(b),
        decreases collisions@.len() - i,
    {
        proof {
            let upto = collisions@.take(i as int + 1);
            assert(upto.drop_last() =~= collisions@.take(i as int));
            assert(upto.last() == collisions@[i as int]);
            assert(collisions@[i as int].wf());
        }
        match collisions[i].left_solid_edge_collision.bump {
            None => {},
            Some(b) => {
                match best {
                    None => {
                        best = Some(b);
                    },
                    Some(kept) => {
                        if b.magnitude2() >= kept.magnitude2() {
                            best = Some(b);
                        }
                    },
                }
            },
        }
        i += 1;
    }
    proof {
        assert(collisions@.take(i as int) =~= collisions@);
    }
    match best {
        Some(b) => Some(Bump::new(b)),
        None => None,
    }
}


/// Where no contact asks for a bump, there is none to make.
pub proof fn lemma_no_bumps_no_max(collisions: Seq<Collision>)
    requires
        crate::best_of::no_bumps(collisions),
    ensures
        spec_max_bump(collisions) is None,
    decreases collisions.len(),
{
    if collisions.len() > 0 {
        assert forall|k: int| 0 <= k < collisions.drop_last().len() implies (
        #[trigger] collisions.drop_last()[k]).left_solid_edge_collision.bump is None by {
            assert(collisions.drop_last()[k] == collisions[k]);
        }
        lemma_no_bumps_no_max(collisions.drop_last());
        assert(collisions.last() == collisions[collisions.len() - 1]);
    }
}

} // verus!

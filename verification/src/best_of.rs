//! The two reducers that pick the nearest contacts: one keeps a single
//! contact and lets a later tie replace it, the other keeps every contact
//! that ties for nearest, in the order they came.
//!
//! Both are collections of the `best` crate. What they hold is known to the
//! verifier only through the contracts of the private functions below, which
//! restate that crate's source and are not proved.

use vstd::prelude::*;
use vstd::std_specs::cmp::PartialOrdSpec;
use std::cmp::Ordering;
use best::BestMultiSet;
use best::BestSet;
use crate::collide::Collision;

verus! {

#[verifier::external_type_specification]
#[verifier::external_body]
#[verifier::reject_recursive_types(T)]
pub struct ExBestMultiSet<T>(best::BestMultiSet<T>);

#[verifier::external_type_specification]
#[verifier::external_body]
#[verifier::reject_recursive_types(T)]
pub struct ExBestSet<T>(best::BestSet<T>);

/// The contacts that a `BestMultiSet` holds, oldest first.
pub uninterp spec fn multi_held(set: BestMultiSet<Collision>) -> Seq<Collision>;

/// The contact that a `BestSet` holds, if it holds one.
pub uninterp spec fn single_held(set: BestSet<Collision>) -> Option<Collision>;

/// What a set of tied nearest contacts holds after `value` is offered to it:
/// `value` alone if it is strictly nearer than what is held, `value` behind
/// the others if it ties with them or nothing is held, and what was held
/// otherwise.
pub open spec fn multi_after_insert(held: Seq<Collision>, value: Collision) -> Seq<Collision> {
    if held.len() == 0 {
        seq![value]
    } else {
        match value.partial_cmp_spec(&held[0]) {
            Some(Ordering::Less) => seq![value],
            Some(Ordering::Equal) => held.push(value),
            _ => held,
        }
    }
}

/// What a single best contact is after `value` is offered: `value` unless
/// what is held is strictly nearer.
pub open spec fn single_after_insert(held: Option<Collision>, value: Collision) -> Option<
    Collision,
> {
    match held {
        None => Some(value),
        Some(kept) => match value.partial_cmp_spec(&kept) {
            Some(Ordering::Less) | Some(Ordering::Equal) => Some(value),
            _ => Some(kept),
        },
    }
}

/// `BestMultiSet::new`: a set that holds nothing.
#[verifier::external_body]
fn multi_new() -> (set: BestMultiSet<Collision>)
    ensures
        multi_held(set) == Seq::<Collision>::empty(),
{
    BestMultiSet::new()
}

/// `BestMultiSet::clear`: afterwards the set holds nothing.
#[verifier::external_body]
fn multi_clear(set: &mut BestMultiSet<Collision>)
    ensures
        multi_held(*final(set)) == Seq::<Collision>::empty(),
{
    set.clear()
}

/// `BestMultiSet::insert_lt`: compares `value` with the oldest contact held
/// and replaces all, appends, or leaves the set as it is.
#[verifier::external_body]
fn multi_insert_lt(set: &mut BestMultiSet<Collision>, value: Collision)
    ensures
        multi_held(*final(set)) == multi_after_insert(multi_held(*old(set)), value),
{
    set.insert_lt(value)
}

/// `BestMultiSet::first`: the oldest contact held.
#[verifier::external_body]
fn multi_first(set: &BestMultiSet<Collision>) -> (r: Option<Collision>)
    ensures
        r == (if multi_held(*set).len() == 0 {
            None
        } else {
            Some(multi_held(*set)[0])
        }),
{
    set.first().copied()
}

/// `BestMultiSet::is_empty`.
#[verifier::external_body]
fn multi_is_empty(set: &BestMultiSet<Collision>) -> (r: bool)
    ensures
        r == (multi_held(*set).len() == 0),
{
    set.is_empty()
}

/// `BestMultiSet::iter`: every contact held, oldest first.
#[verifier::external_body]
fn multi_iter(set: &BestMultiSet<Collision>) -> (r: Vec<Collision>)
    ensures
        r@ == multi_held(*set),
{
    set.iter().copied().collect()
}

/// `BestMultiSet::drain`: hands out every contact held, oldest first, and
/// leaves the set empty.
#[verifier::external_body]
fn multi_drain(set: &mut BestMultiSet<Collision>) -> (r: Vec<Collision>)
    ensures
        r@ == multi_held(*old(set)),
        multi_held(*final(set)) == Seq::<Collision>::empty(),
{
    set.drain().collect()
}

/// `BestSet::new`: a set that holds nothing.
#[verifier::external_body]
fn single_new() -> (set: BestSet<Collision>)
    ensures
        single_held(set) == None::<Collision>,
{
    BestSet::new()
}

/// `BestSet::insert_le`: `value` replaces what is held unless that is
/// strictly nearer.
#[verifier::external_body]
fn single_insert_le(set: &mut BestSet<Collision>, value: Collision)
    ensures
        single_held(*final(set)) == single_after_insert(single_held(*old(set)), value),
{
    set.insert_le(value)
}

/// `BestSet::get`: the contact held.
#[verifier::external_body]
fn single_get(set: &BestSet<Collision>) -> (r: Option<Collision>)
    ensures
        r == single_held(*set),
{
    set.get().copied()
}

/// Every contact that ties for nearest among those offered since the set was
/// last emptied, in the order they were offered.
pub struct MultiBest {
    set: BestMultiSet<Collision>,
}

impl View for MultiBest {
    type V = Seq<Collision>;

    closed spec fn view(&self) -> Seq<Collision> {
        multi_held(self.set)
    }
}

impl MultiBest {
    pub fn new() -> (s: MultiBest)
        ensures
            s@ == Seq::<Collision>::empty(),
    {
        MultiBest { set: multi_new() }
    }

    pub fn clear(&mut self)
        ensures
            final(self)@ == Seq::<Collision>::empty(),
    {
        multi_clear(&mut self.set)
    }

    /// Offers `value`: it replaces what is held if it is strictly nearer,
    /// joins it on a tie, and is dropped if it is farther.
    pub fn insert(&mut self, value: Collision)
        ensures
            final(self)@ == multi_after_insert(old(self)@, value),
    {
        multi_insert_lt(&mut self.set, value)
    }

    /// The oldest of the contacts held.
    pub fn first(&self) -> (r: Option<Collision>)
        ensures
            r == (if self@.len() == 0 {
                None
            } else {
                Some(self@[0])
            }),
    {
        multi_first(&self.set)
    }

    pub fn is_empty(&self) -> (r: bool)
        ensures
            r == (self@.len() == 0),
    {
        multi_is_empty(&self.set)
    }

    /// Every contact held, oldest first.
    pub fn iter(&self) -> (r: Vec<Collision>)
        ensures
            r@ == self@,
    {
        multi_iter(&self.set)
    }

    /// Every contact held, oldest first; the set is empty afterwards.
    pub fn drain(&mut self) -> (r: Vec<Collision>)
        ensures
            r@ == old(self)@,
            final(self)@ == Seq::<Collision>::empty(),
    {
        multi_drain(&mut self.set)
    }
}

/// The nearest contact among those offered since the set was last emptied;
/// of several that tie, the one offered last.
pub struct SingleBest {
    set: BestSet<Collision>,
}

impl View for SingleBest {
    type V = Option<Collision>;

    closed spec fn view(&self) -> Option<Collision> {
        single_held(self.set)
    }
}

impl SingleBest {
    pub fn new() -> (s: SingleBest)
        ensures
            s@ == None::<Collision>,
    {
        SingleBest { set: single_new() }
    }

    pub fn clear(&mut self)
        ensures
            final(self)@ == None::<Collision>,
    {
        self.set = single_new();
    }

    /// Offers `value`: it replaces what is held unless that is strictly
    /// nearer.
    pub fn insert(&mut self, value: Collision)
        ensures
            final(self)@ == single_after_insert(old(self)@, value),
    {
        single_insert_le(&mut self.set, value)
    }

    /// The contact held.
    pub fn first(&self) -> (r: Option<Collision>)
        ensures
            r == self@,
    {
        single_get(&self.set)
    }

    pub fn is_empty(&self) -> (r: bool)
        ensures
            r == (self@ is None),
    {
        self.first().is_none()
    }

    /// The contact held, as a list of at most one.
    pub fn iter(&self) -> (r: Vec<Collision>)
        ensures
            r@ == (match self@ {
                Some(c) => seq![c],
                None => Seq::<Collision>::empty(),
            }),
    {
        let mut out: Vec<Collision> = Vec::new();
        if let Some(c) = self.first() {
            out.push(c);
        }
        out
    }

    /// The contact held, as a list of at most one; the set is empty
    /// afterwards.
    pub fn drain(&mut self) -> (r: Vec<Collision>)
        ensures
            r@ == (match old(self)@ {
                Some(c) => seq![c],
                None => Seq::<Collision>::empty(),
            }),
            final(self)@ == None::<Collision>,
    {
        let out = self.iter();
        self.clear();
        out
    }
}


/// Every contact of `items` can be computed with.
pub open spec fn all_wf(items: Seq<Collision>) -> bool {
    forall|k: int| 0 <= k < items.len() ==> (#[trigger] items[k]).wf()
}

/// Offering one list and then another is offering the two as one list.
pub proof fn lemma_after_all_concat(
    many: Seq<Collision>,
    one: Option<Collision>,
    a: Seq<Collision>,
    b: Seq<Collision>,
)
    ensures
        multi_after_all(many, a + b) == multi_after_all(multi_after_all(many, a), b),
        single_after_all(one, a + b) == single_after_all(single_after_all(one, a), b),
    decreases b.len(),
{
    if b.len() == 0 {
        assert(a + b =~= a);
    } else {
        assert((a + b).drop_last() =~= a + b.drop_last());
        assert((a + b).last() == b.last());
        lemma_after_all_concat(many, one, a, b.drop_last());
    }
}

/// What a set of tied nearest contacts holds after each of `items` was
/// offered to it in turn.
pub open spec fn multi_after_all(held: Seq<Collision>, items: Seq<Collision>) -> Seq<Collision>
    decreases items.len(),
{
    if items.len() == 0 {
        held
    } else {
        multi_after_insert(multi_after_all(held, items.drop_last()), items.last())
    }
}

/// What a single best contact is after each of `items` was offered in turn.
pub open spec fn single_after_all(held: Option<Collision>, items: Seq<Collision>) -> Option<
    Collision,
>
    decreases items.len(),
{
    if items.len() == 0 {
        held
    } else {
        single_after_insert(single_after_all(held, items.drop_last()), items.last())
    }
}

/// The contacts that tie for nearest among `items`, in their order.
pub open spec fn closest_of(items: Seq<Collision>) -> Seq<Collision> {
    multi_after_all(Seq::empty(), items)
}

/// The nearest contact among `items`; the last of those that tie.
pub open spec fn nearest_of(items: Seq<Collision>) -> Option<Collision> {
    single_after_all(None, items)
}


/// No contact among `items` comes strictly before `c`.
pub open spec fn is_nearest_in(items: Seq<Collision>, c: Collision) -> bool {
    forall|j: int| 0 <= j < items.len() ==> !(#[trigger] items[j]).nearer_than(c)
}

/// The test that keeps the contacts that nothing in `items` comes before.
pub open spec fn nearest_in(items: Seq<Collision>) -> spec_fn(Collision) -> bool {
    |c: Collision| is_nearest_in(items, c)
}

/// Every fraction among `items` has a positive denominator.
pub open spec fn positive_denominators(items: Seq<Collision>) -> bool {
    forall|j: int|
        0 <= j < items.len() ==> (#[trigger] items[j]).left_solid_edge_collision.denominator > 0
}

/// Fractions with positive denominators are ordered as numbers are: what
/// comes no later than something that comes no later than a third comes no
/// later than the third, and strictly before it if one of the two steps is
/// strict.
pub proof fn lemma_fraction_order(a: Collision, b: Collision, c: Collision)
    requires
        a.left_solid_edge_collision.denominator > 0,
        b.left_solid_edge_collision.denominator > 0,
        c.left_solid_edge_collision.denominator > 0,
    ensures
        !a.nearer_than(a),
        a.nearer_than(b) || a.as_near_as(b) || b.nearer_than(a),
        a.as_near_as(b) ==> !a.nearer_than(b) && !b.nearer_than(a) && b.as_near_as(a),
        !b.nearer_than(a) && !c.nearer_than(b) ==> !c.nearer_than(a),
        a.nearer_than(b) && !c.nearer_than(b) ==> a.nearer_than(c),
        !b.nearer_than(a) && b.nearer_than(c) ==> a.nearer_than(c),
{
    let a0 = a.left_solid_edge_collision.numerator as int;
    let a1 = a.left_solid_edge_collision.denominator as int;
    let b0 = b.left_solid_edge_collision.numerator as int;
    let b1 = b.left_solid_edge_collision.denominator as int;
    let c0 = c.left_solid_edge_collision.numerator as int;
    let c1 = c.left_solid_edge_collision.denominator as int;
    let ab = a0 * b1;
    let ba = b0 * a1;
    let bc = b0 * c1;
    let cb = c0 * b1;
    let ac = a0 * c1;
    let ca = c0 * a1;
    assert(ab * c1 == ac * b1) by (nonlinear_arith)
        requires
            ab == a0 * b1,
            ac == a0 * c1,
    ;
    assert(ba * c1 == bc * a1) by (nonlinear_arith)
        requires
            ba == b0 * a1,
            bc == b0 * c1,
    ;
    assert(cb * a1 == ca * b1) by (nonlinear_arith)
        requires
            cb == c0 * b1,
            ca == c0 * a1,
    ;
    assert(ab <= ba ==> ab * c1 <= ba * c1) by (nonlinear_arith)
        requires
            c1 > 0,
    ;
    assert(ab < ba ==> ab * c1 < ba * c1) by (nonlinear_arith)
        requires
            c1 > 0,
    ;
    assert(bc <= cb ==> bc * a1 <= cb * a1) by (nonlinear_arith)
        requires
            a1 > 0,
    ;
    assert(bc < cb ==> bc * a1 < cb * a1) by (nonlinear_arith)
        requires
            a1 > 0,
    ;
    assert(ac * b1 <= ca * b1 ==> ac <= ca) by (nonlinear_arith)
        requires
            b1 > 0,
    ;
    assert(ac * b1 < ca * b1 ==> ac < ca) by (nonlinear_arith)
        requires
            b1 > 0,
    ;
}

proof fn lemma_filter_agree(items: Seq<Collision>, p: spec_fn(Collision) -> bool, q: spec_fn(
    Collision,
) -> bool)
    requires
        forall|i: int| 0 <= i < items.len() ==> p(#[trigger] items[i]) == q(items[i]),
    ensures
        items.filter(p) == items.filter(q),
    decreases items.len(),
{
    reveal(Seq::filter);
    if items.len() > 0 {
        let s = items.drop_last();
        assert forall|i: int| 0 <= i < s.len() implies p(#[trigger] s[i]) == q(s[i]) by {
            assert(s[i] == items[i]);
        }
        lemma_filter_agree(s, p, q);
        assert(items.last() == items[items.len() - 1]);
    }
}

proof fn lemma_filter_none(items: Seq<Collision>, p: spec_fn(Collision) -> bool)
    requires
        forall|i: int| 0 <= i < items.len() ==> !p(#[trigger] items[i]),
    ensures
        items.filter(p) == Seq::<Collision>::empty(),
    decreases items.len(),
{
    reveal(Seq::filter);
    if items.len() > 0 {
        let s = items.drop_last();
        assert forall|i: int| 0 <= i < s.len() implies !p(#[trigger] s[i]) by {
            assert(s[i] == items[i]);
        }
        lemma_filter_none(s, p);
        assert(items.last() == items[items.len() - 1]);
    }
}

/// The set of tied nearest contacts holds, of everything offered to it,
/// exactly the contacts that nothing offered comes before, in the order in
/// which they were offered.
pub proof fn lemma_closest_are_the_nearest(items: Seq<Collision>)
    requires
        positive_denominators(items),
    ensures
        closest_of(items) == items.filter(nearest_in(items)),
        items.len() > 0 ==> closest_of(items).len() > 0 && is_nearest_in(
            items,
            closest_of(items)[0],
        ) && items.contains(closest_of(items)[0]),
    decreases items.len(),
{
    reveal(Seq::filter);
    if items.len() > 0 {
        let s = items.drop_last();
        let x = items.last();
        let n = s.len() as int;
        assert(items[n] == x);
        assert forall|i: int| 0 <= i < s.len() implies (#[trigger] s[i]) == items[i] by {}
        assert(positive_denominators(s)) by {
            assert forall|j: int| 0 <= j < s.len() implies (
            #[trigger] s[j]).left_solid_edge_collision.denominator > 0 by {
                assert(s[j] == items[j]);
            }
        }
        lemma_closest_are_the_nearest(s);
        let held = closest_of(s);
        let p = nearest_in(items);
        let ps = nearest_in(s);
        lemma_fraction_order(x, x, x);
        if s.len() == 0 {
            assert(held =~= Seq::<Collision>::empty());
            assert(is_nearest_in(items, x));
            assert(closest_of(items) =~= seq![x]);
            assert(s.filter(p) =~= Seq::<Collision>::empty());
            assert(items.filter(p) =~= seq![x]);
            assert(items.contains(x));
        } else {
            let m = held[0];
            let at = choose|j: int| 0 <= j < s.len() && s[j] == m;
            assert(items[at] == m);
            lemma_fraction_order(x, m, m);
            if x.nearer_than(m) {
                assert forall|i: int| 0 <= i < s.len() implies !p(#[trigger] s[i]) by {
                    lemma_fraction_order(x, m, s[i]);
                    assert(items[n].nearer_than(s[i]));
                }
                lemma_filter_none(s, p);
                assert forall|j: int| 0 <= j < items.len() implies !(
                #[trigger] items[j]).nearer_than(x) by {
                    if j < n {
                        lemma_fraction_order(s[j], x, m);
                        assert(s[j] == items[j]);
                    }
                }
                assert(closest_of(items) =~= seq![x]);
                assert(items.filter(p) =~= seq![x]);
                assert(items.contains(x));
            } else {
                assert forall|i: int| 0 <= i < s.len() implies p(#[trigger] s[i]) == ps(
                    s[i],
                ) by {
                    if ps(s[i]) {
                        assert(!s[at].nearer_than(s[i]));
                        assert(!s[i].nearer_than(m));
                        lemma_fraction_order(x, s[i], m);
                        assert forall|j: int| 0 <= j < items.len() implies !(
                        #[trigger] items[j]).nearer_than(s[i]) by {
                            if j < n {
                                assert(items[j] == s[j]);
                            }
                        }
                    } else {
                        let j = choose|j: int| 0 <= j < s.len() && (#[trigger] s[j]).nearer_than(s[i]);
                        assert(items[j].nearer_than(s[i]));
                    }
                }
                lemma_filter_agree(s, p, ps);
                if x.as_near_as(m) {
                    assert forall|j: int| 0 <= j < items.len() implies !(
                    #[trigger] items[j]).nearer_than(x) by {
                        if j < n {
                            assert(items[j] == s[j]);
                            assert(!s[j].nearer_than(m));
                            lemma_fraction_order(m, x, s[j]);
                            lemma_fraction_order(s[j], x, m);
                        }
                    }
                    assert(p(x));
                    assert(closest_of(items) =~= held.push(x));
                } else {
                    assert(m.nearer_than(x));
                    assert(items[at].nearer_than(x));
                    assert(!p(x));
                    assert(closest_of(items) =~= held);
                }
                assert forall|j: int| 0 <= j < items.len() implies !(
                #[trigger] items[j]).nearer_than(m) by {
                    if j < n {
                        assert(items[j] == s[j]);
                    }
                }
                assert(closest_of(items)[0] == m);
                assert(items.contains(m));
            }
        }
    } else {
        assert(closest_of(items) =~= Seq::<Collision>::empty());
    }
}

/// The single best contact is, of everything offered, the last of the
/// contacts that nothing offered comes before.
pub proof fn lemma_nearest_is_the_last_nearest(items: Seq<Collision>)
    requires
        positive_denominators(items),
        items.len() > 0,
    ensures
        exists|k: int|
            0 <= k < items.len() && nearest_of(items) == Some(#[trigger] items[k])
                && is_nearest_in(items, items[k]) && forall|j: int|
                k < j < items.len() ==> !is_nearest_in(items, #[trigger] items[j]),
    decreases items.len(),
{
    let s = items.drop_last();
    let x = items.last();
    let n = s.len() as int;
    assert(items[n] == x);
    lemma_fraction_order(x, x, x);
    if s.len() == 0 {
        assert(nearest_of(s) == None::<Collision>);
        assert(nearest_of(items) == Some(items[n]));
        assert(is_nearest_in(items, items[n]));
    } else {
        assert(positive_denominators(s)) by {
            assert forall|j: int| 0 <= j < s.len() implies (
            #[trigger] s[j]).left_solid_edge_collision.denominator > 0 by {
                assert(s[j] == items[j]);
            }
        }
        lemma_nearest_is_the_last_nearest(s);
        let k = choose|k: int|
            0 <= k < s.len() && nearest_of(s) == Some(#[trigger] s[k]) && is_nearest_in(s, s[k])
                && forall|j: int| k < j < s.len() ==> !is_nearest_in(s, #[trigger] s[j]);
        let c = s[k];
        assert(items[k] == c);
        lemma_fraction_order(x, c, c);
        if c.nearer_than(x) {
            assert(nearest_of(items) == Some(items[k]));
            assert forall|j: int| 0 <= j < items.len() implies !(#[trigger] items[j]).nearer_than(
                c,
            ) by {
                if j < n {
                    assert(items[j] == s[j]);
                }
            }
            assert forall|j: int| k < j < items.len() implies !is_nearest_in(
                items,
                #[trigger] items[j],
            ) by {
                if j < n {
                    assert(items[j] == s[j]);
                    assert(!is_nearest_in(s, s[j]));
                    let w = choose|w: int| 0 <= w < s.len() && (#[trigger] s[w]).nearer_than(s[j]);
                    assert(items[w] == s[w]);
                    assert(items[w].nearer_than(items[j]));
                } else {
                    assert(items[k].nearer_than(items[j]));
                }
            }
        } else {
            assert(nearest_of(items) == Some(items[n]));
            assert forall|j: int| 0 <= j < items.len() implies !(#[trigger] items[j]).nearer_than(
                x,
            ) by {
                if j < n {
                    assert(items[j] == s[j]);
                    assert(!s[j].nearer_than(c));
                    lemma_fraction_order(x, c, s[j]);
                    lemma_fraction_order(s[j], x, c);
                }
            }
        }
    }
}


/// No contact of `items` asks for a bump.
pub open spec fn no_bumps(items: Seq<Collision>) -> bool {
    forall|k: int| 0 <= k < items.len() ==> (#[trigger] items[k]).left_solid_edge_collision.bump is None
}

/// Where nothing that is offered asks for a bump, nothing that is held does.
pub proof fn lemma_closest_keep_no_bumps(held: Seq<Collision>, items: Seq<Collision>)
    requires
        no_bumps(held),
        no_bumps(items),
    ensures
        no_bumps(multi_after_all(held, items)),
    decreases items.len(),
{
    if items.len() > 0 {
        assert forall|k: int| 0 <= k < items.drop_last().len() implies (
        #[trigger] items.drop_last()[k]).left_solid_edge_collision.bump is None by {
            assert(items.drop_last()[k] == items[k]);
        }
        lemma_closest_keep_no_bumps(held, items.drop_last());
        assert(items.last() == items[items.len() - 1]);
    }
}

} // verus!

//! The broad-phase index: a loose quad-tree over the bounding boxes of the
//! entities, rebuilt every tick and asked for the boxes that intersect a
//! query box.
//!
//! The tree is complete and of fixed depth, so a node is known by its
//! number alone: the root is node 0, and level `l` holds `side(l)` rows of
//! `side(l)` nodes, numbered row by row from `first_cell(l)` on. The cell of
//! a node is its share of the world; its bounds are loose: they reach one
//! cell further to the right and down. A box belongs to the deepest node
//! whose cell holds its top left corner and is no smaller than the box, so
//! it lies within that node's bounds, and a query looks only into the nodes
//! whose bounds it meets.

use vstd::prelude::*;
use vstd::arithmetic::div_mod::lemma_fundamental_div_mod;
use vstd::arithmetic::div_mod::lemma_mod_pos_bound;
use crate::aabb::Aabb;
use crate::movement::EntityId;
use crate::vector::Vector2;
use crate::vector::POINT_LIMIT;

verus! {

/// The deepest level of the tree.
pub const DEPTH: usize = 4;

/// The number of nodes.
pub const CELLS: usize = 341;

/// The part of the world that the tree subdivides.
#[derive(Clone, Copy, Debug, PartialEq, Eq, Structural)]
pub struct Bounds {
    pub origin: Vector2,
    pub size: Vector2,
}

/// How many cells a level has along each axis.
pub open spec fn side(level: int) -> int {
    if level <= 0 {
        1
    } else if level == 1 {
        2
    } else if level == 2 {
        4
    } else if level == 3 {
        8
    } else {
        16
    }
}

/// The number of the first node of a level.
pub open spec fn first_cell(level: int) -> int {
    if level <= 0 {
        0
    } else if level == 1 {
        1
    } else if level == 2 {
        5
    } else if level == 3 {
        21
    } else if level == 4 {
        85
    } else {
        341
    }
}

/// The entries of `entries` whose box intersects `query`, in their order.
pub open spec fn intersecting(entries: Seq<(Aabb, EntityId)>, query: Aabb) -> Seq<
    (Aabb, EntityId),
>
    decreases entries.len(),
{
    if entries.len() == 0 {
        Seq::empty()
    } else {
        let before = intersecting(entries.drop_last(), query);
        if entries.last().0.intersects(query) {
            before.push(entries.last())
        } else {
            before
        }
    }
}

impl Bounds {
    /// The world has a top left corner that can be computed with, and is at
    /// least one unit wide and high.
    pub open spec fn wf(self) -> bool {
        &&& self.origin.within(POINT_LIMIT as int)
        &&& 1 <= self.size.x <= POINT_LIMIT
        &&& 1 <= self.size.y <= POINT_LIMIT
    }

    /// The width of a cell of `level`: the width of the world shared out,
    /// rounded up.
    pub open spec fn cell_width(self, level: int) -> int {
        (self.size.x + side(level) - 1) / side(level)
    }

    pub open spec fn cell_height(self, level: int) -> int {
        (self.size.y + side(level) - 1) / side(level)
    }

    /// The top left corner of `b` lies in the world.
    pub open spec fn holds_corner(self, b: Aabb) -> bool {
        &&& self.origin.x <= b.left() < self.origin.x + self.size.x
        &&& self.origin.y <= b.top() < self.origin.y + self.size.y
    }

    /// `b` is no larger than a cell of `level`.
    pub open spec fn fits(self, b: Aabb, level: int) -> bool {
        b.size.x <= self.cell_width(level) && b.size.y <= self.cell_height(level)
    }

    /// The level of the node that `b` belongs to: the deepest whose cells
    /// are no smaller than `b`, and the root for a box whose corner lies
    /// outside the world or that is larger than every cell.
    pub open spec fn level_of(self, b: Aabb) -> int {
        if !self.holds_corner(b) {
            0
        } else if self.fits(b, 4) {
            4
        } else if self.fits(b, 3) {
            3
        } else if self.fits(b, 2) {
            2
        } else if self.fits(b, 1) {
            1
        } else {
            0
        }
    }

    /// The column of the cell of `level` that holds the corner of `b`.
    pub open spec fn column_of(self, b: Aabb, level: int) -> int {
        (b.left() - self.origin.x) / self.cell_width(level)
    }

    pub open spec fn row_of(self, b: Aabb, level: int) -> int {
        (b.top() - self.origin.y) / self.cell_height(level)
    }

    /// The number of the node that `b` belongs to.
    pub open spec fn cell_of(self, b: Aabb) -> int {
        let level = self.level_of(b);
        if level == 0 {
            0
        } else {
            first_cell(level) + self.row_of(b, level) * side(level) + self.column_of(b, level)
        }
    }

    /// `query` meets the loose bounds of the node in row `row` and column
    /// `col` of `level`: its cell, and one cell more to the right and down.
    pub open spec fn may_meet(self, level: int, row: int, col: int, query: Aabb) -> bool {
        &&& self.origin.x + col * self.cell_width(level) <= query.right()
        &&& query.left() <= self.origin.x + (col + 2) * self.cell_width(level)
        &&& self.origin.y + row * self.cell_height(level) <= query.bottom()
        &&& query.top() <= self.origin.y + (row + 2) * self.cell_height(level)
    }

    /// A box that belongs to a node below the root lies in a row and a
    /// column of its level and within the loose bounds of the node.
    pub proof fn lemma_cell(self, b: Aabb)
        requires
            self.wf(),
            b.wf(),
            self.level_of(b) >= 1,
        ensures
            1 <= self.level_of(b) <= 4,
            0 <= self.column_of(b, self.level_of(b)) < side(self.level_of(b)),
            0 <= self.row_of(b, self.level_of(b)) < side(self.level_of(b)),
            first_cell(self.level_of(b)) <= self.cell_of(b) < first_cell(self.level_of(b) + 1),
            forall|query: Aabb|
                b.intersects(query) ==> #[trigger] self.may_meet(
                    self.level_of(b),
                    self.row_of(b, self.level_of(b)),
                    self.column_of(b, self.level_of(b)),
                    query,
                ),
    {
        let level = self.level_of(b);
        let n = side(level);
        let cw = self.cell_width(level);
        let ch = self.cell_height(level);
        let col = self.column_of(b, level);
        let row = self.row_of(b, level);
        lemma_share(self.size.x as int, level);
        lemma_share(self.size.y as int, level);
        lemma_place(b.left() - self.origin.x, self.size.x as int, cw, n);
        lemma_place(b.top() - self.origin.y, self.size.y as int, ch, n);
        assert(0 <= row * n + col < n * n) by (nonlinear_arith)
            requires
                0 <= row < n,
                0 <= col < n,
        ;
        lemma_level_size(level);
        assert((col + 2) * cw == col * cw + 2 * cw) by (nonlinear_arith);
        assert((row + 2) * ch == row * ch + 2 * ch) by (nonlinear_arith);
    }

    /// A node has one level, row and column.
    pub proof fn lemma_one_place(level: int, row: int, col: int, other: int, r: int, c: int)
        requires
            1 <= level <= 4,
            1 <= other <= 4,
            0 <= row < side(level),
            0 <= col < side(level),
            0 <= r < side(other),
            0 <= c < side(other),
            first_cell(level) + row * side(level) + col == first_cell(other) + r * side(other) + c,
        ensures
            level == other,
            row == r,
            col == c,
    {
        let n = side(level);
        let m = side(other);
        assert(0 <= row * n + col < n * n) by (nonlinear_arith)
            requires
                0 <= row < n,
                0 <= col < n,
        ;
        assert(0 <= r * m + c < m * m) by (nonlinear_arith)
            requires
                0 <= r < m,
                0 <= c < m,
        ;
        lemma_level_size(level);
        lemma_level_size(other);
        assert(level == other);
        assert(row == r && col == c) by (nonlinear_arith)
            requires
                row * n + col == r * n + c,
                0 <= col < n,
                0 <= c < n,
        ;
    }
}

/// A level has as many nodes as it has rows times columns.
proof fn lemma_level_size(level: int)
    requires
        1 <= level <= 4,
    ensures
        first_cell(level) + side(level) * side(level) == first_cell(level + 1),
{
    let n = side(level);
    assert(n * n == (if level == 1 {
        4int
    } else if level == 2 {
        16
    } else if level == 3 {
        64
    } else {
        256
    })) by (nonlinear_arith)
        requires
            (level == 1 && n == 2) || (level == 2 && n == 4) || (level == 3 && n == 8) || (level
                == 4 && n == 16),
    ;
}

/// The cells of a level cover the world between them.
proof fn lemma_share(total: int, level: int)
    requires
        total >= 1,
        1 <= level <= 4,
    ensures
        1 <= (total + side(level) - 1) / side(level) <= total,
        ((total + side(level) - 1) / side(level)) * side(level) >= total,
{
    let n = side(level);
    let cw = (total + n - 1) / n;
    lemma_fundamental_div_mod(total + n - 1, n);
    lemma_mod_pos_bound(total + n - 1, n);
    assert(cw * n == n * cw) by (nonlinear_arith);
    assert(1 <= cw <= total) by (nonlinear_arith)
        requires
            n * cw + (total + n - 1) % n == total + n - 1,
            0 <= (total + n - 1) % n < n,
            total >= 1,
            n >= 1,
    ;
}

/// A distance into the world falls into one of the cells.
proof fn lemma_place(d: int, total: int, extent: int, n: int)
    requires
        0 <= d < total,
        extent >= 1,
        extent * n >= total,
        n >= 1,
    ensures
        0 <= d / extent < n,
        (d / extent) * extent <= d < (d / extent) * extent + extent,
{
    let q = d / extent;
    lemma_fundamental_div_mod(d, extent);
    lemma_mod_pos_bound(d, extent);
    assert(q * extent == extent * q) by (nonlinear_arith);
    assert(0 <= q < n) by (nonlinear_arith)
        requires
            extent * q + d % extent == d,
            0 <= d % extent < extent,
            0 <= d < total,
            extent * n >= total,
            extent >= 1,
    ;
}

/// The entries that belong to the node `cell`, in their order.
pub open spec fn bucket_of(entries: Seq<(Aabb, EntityId)>, bounds: Bounds, cell: int) -> Seq<
    (Aabb, EntityId),
>
    decreases entries.len(),
{
    if entries.len() == 0 {
        Seq::empty()
    } else {
        let before = bucket_of(entries.drop_last(), bounds, cell);
        if bounds.cell_of(entries.last().0) == cell {
            before.push(entries.last())
        } else {
            before
        }
    }
}

/// What a query finds in the nodes before `upto`: node by node, the entries
/// of the node whose box intersects the query.
pub open spec fn cells_found(
    entries: Seq<(Aabb, EntityId)>,
    bounds: Bounds,
    query: Aabb,
    upto: int,
) -> Seq<(Aabb, EntityId)>
    decreases upto,
{
    if upto <= 0 {
        Seq::empty()
    } else {
        cells_found(entries, bounds, query, upto - 1) + intersecting(
            bucket_of(entries, bounds, upto - 1),
            query,
        )
    }
}

/// What a query finds: the entries whose box intersects `query`, node by
/// node in the order of the nodes' numbers, and within a node in the order
/// in which they were inserted.
pub open spec fn spec_found(entries: Seq<(Aabb, EntityId)>, bounds: Bounds, query: Aabb) -> Seq<
    (Aabb, EntityId),
> {
    cells_found(entries, bounds, query, CELLS as int)
}

/// A list of which no box intersects the query holds nothing for it.
proof fn lemma_none_intersecting(entries: Seq<(Aabb, EntityId)>, query: Aabb)
    requires
        forall|i: int| 0 <= i < entries.len() ==> !(#[trigger] entries[i]).0.intersects(query),
    ensures
        intersecting(entries, query) == Seq::<(Aabb, EntityId)>::empty(),
    decreases entries.len(),
{
    if entries.len() > 0 {
        assert(entries.last() == entries[entries.len() - 1]);
        assert forall|i: int| 0 <= i < entries.drop_last().len() implies !(
        #[trigger] entries.drop_last()[i]).0.intersects(query) by {
            assert(entries.drop_last()[i] == entries[i]);
        }
        lemma_none_intersecting(entries.drop_last(), query);
    }
}

/// Every entry of a node's bucket belongs to the node, and is an entry.
proof fn lemma_bucket_members(entries: Seq<(Aabb, EntityId)>, bounds: Bounds, cell: int)
    ensures
        forall|i: int|
            0 <= i < bucket_of(entries, bounds, cell).len() ==> bounds.cell_of(
                (#[trigger] bucket_of(entries, bounds, cell)[i]).0,
            ) == cell && entries.contains(bucket_of(entries, bounds, cell)[i]),
    decreases entries.len(),
{
    if entries.len() > 0 {
        let s = entries.drop_last();
        lemma_bucket_members(s, bounds, cell);
        let bucket = bucket_of(entries, bounds, cell);
        assert forall|i: int| 0 <= i < bucket.len() implies bounds.cell_of(
            (#[trigger] bucket[i]).0,
        ) == cell && entries.contains(bucket[i]) by {
            if i < bucket_of(s, bounds, cell).len() {
                let j = choose|j: int| 0 <= j < s.len() && s[j] == bucket_of(s, bounds, cell)[i];
                assert(entries[j] == bucket[i]);
            } else {
                assert(entries[entries.len() - 1] == bucket[i]);
            }
        }
    }
}

/// A node whose loose bounds the query does not meet holds nothing for it.
proof fn lemma_cell_misses(
    entries: Seq<(Aabb, EntityId)>,
    bounds: Bounds,
    query: Aabb,
    level: int,
    row: int,
    col: int,
)
    requires
        bounds.wf(),
        forall|i: int| 0 <= i < entries.len() ==> (#[trigger] entries[i]).0.wf(),
        1 <= level <= 4,
        0 <= row < side(level),
        0 <= col < side(level),
        !bounds.may_meet(level, row, col, query),
    ensures
        intersecting(
            bucket_of(entries, bounds, first_cell(level) + row * side(level) + col),
            query,
        ) == Seq::<(Aabb, EntityId)>::empty(),
{
    let cell = first_cell(level) + row * side(level) + col;
    let bucket = bucket_of(entries, bounds, cell);
    lemma_bucket_members(entries, bounds, cell);
    assert(0 <= row * side(level) + col) by (nonlinear_arith)
        requires
            0 <= row,
            0 <= col,
            side(level) >= 1,
    ;
    assert forall|i: int| 0 <= i < bucket.len() implies !(#[trigger] bucket[i]).0.intersects(
        query,
    ) by {
        let b = bucket[i].0;
        let j = choose|j: int| 0 <= j < entries.len() && entries[j] == bucket[i];
        assert(entries[j].0.wf());
        assert(bounds.cell_of(b) == cell);
        assert(bounds.level_of(b) >= 1);
        bounds.lemma_cell(b);
        Bounds::lemma_one_place(
            level,
            row,
            col,
            bounds.level_of(b),
            bounds.row_of(b, bounds.level_of(b)),
            bounds.column_of(b, bounds.level_of(b)),
        );
    }
    lemma_none_intersecting(bucket, query);
}


fn side_of(level: usize) -> (n: i64)
    requires
        level <= DEPTH,
    ensures
        n == side(level as int),
{
    if level == 0 {
        1
    } else if level == 1 {
        2
    } else if level == 2 {
        4
    } else if level == 3 {
        8
    } else {
        16
    }
}

fn first_cell_of(level: usize) -> (k: usize)
    requires
        level <= DEPTH,
    ensures
        k == first_cell(level as int),
{
    if level == 0 {
        0
    } else if level == 1 {
        1
    } else if level == 2 {
        5
    } else if level == 3 {
        21
    } else {
        85
    }
}

impl Bounds {
    fn width_of_cell(&self, level: usize) -> (w: i64)
        requires
            self.wf(),
            1 <= level <= DEPTH,
        ensures
            w == self.cell_width(level as int),
            1 <= w <= POINT_LIMIT,
    {
        proof {
            lemma_share(self.size.x as int, level as int);
        }
        let n: i64 = side_of(level);
        (self.size.x + n - 1) / n
    }

    fn height_of_cell(&self, level: usize) -> (h: i64)
        requires
            self.wf(),
            1 <= level <= DEPTH,
        ensures
            h == self.cell_height(level as int),
            1 <= h <= POINT_LIMIT,
    {
        proof {
            lemma_share(self.size.y as int, level as int);
        }
        let n: i64 = side_of(level);
        (self.size.y + n - 1) / n
    }

    /// The number of the node that `b` belongs to.
    pub fn cell_index(&self, b: &Aabb) -> (k: usize)
        requires
            self.wf(),
            b.wf(),
        ensures
            k == self.cell_of(*b),
            k < CELLS,
    {
        let left: i64 = b.top_left.x;
        let top: i64 = b.top_left.y;
        if !(self.origin.x <= left && left < self.origin.x + self.size.x && self.origin.y <= top
            && top < self.origin.y + self.size.y) {
            return 0;
        }
        let mut level: usize = DEPTH;
        while level >= 1
            invariant
                0 <= level <= DEPTH,
                self.wf(),
                b.wf(),
                self.holds_corner(*b),
                left == b.left(),
                top == b.top(),
                forall|l: int| level < l <= 4 ==> !self.fits(*b, l),
            decreases level,
        {
            let cw: i64 = self.width_of_cell(level);
            let ch: i64 = self.height_of_cell(level);
            if b.size.x <= cw && b.size.y <= ch {
                proof {
                    assert(self.level_of(*b) == level);
                    self.lemma_cell(*b);
                    lemma_level_size(level as int);
                }
                let n: i64 = side_of(level);
                let col: i64 = (left - self.origin.x) / cw;
                let row: i64 = (top - self.origin.y) / ch;
                proof {
                    assert(0 <= row * n + col < n * n) by (nonlinear_arith)
                        requires
                            0 <= row < n,
                            0 <= col < n,
                    ;
                    assert(n * n <= 256) by (nonlinear_arith)
                        requires
                            1 <= n <= 16,
                    ;
                }
                return first_cell_of(level) + ((row * n + col) as usize);
            }
            level -= 1;
        }
        0
    }
}

/// A loose quad-tree of bounding boxes, each with the entity it belongs to.
pub struct LooseQuadTree {
    bounds: Bounds,
    cells: Vec<Vec<(Aabb, EntityId)>>,
    entries: Ghost<Seq<(Aabb, EntityId)>>,
    count: usize,
}

impl View for LooseQuadTree {
    type V = Seq<(Aabb, EntityId)>;

    /// What was inserted since the tree was last cleared, oldest first.
    closed spec fn view(&self) -> Seq<(Aabb, EntityId)> {
        self.entries@
    }
}

impl LooseQuadTree {
    /// The part of the world that the tree subdivides.
    pub closed spec fn spec_bounds(&self) -> Bounds {
        self.bounds
    }

    /// Every node holds the entries that belong to it, and every box held
    /// can be computed with.
    pub closed spec fn wf(&self) -> bool {
        &&& self.bounds.wf()
        &&& self.cells@.len() == CELLS
        &&& self.count == self.entries@.len()
        &&& forall|i: int| 0 <= i < self.entries@.len() ==> (#[trigger] self.entries@[i]).0.wf()
        &&& forall|k: int|
            0 <= k < CELLS ==> (#[trigger] self.cells@[k])@ == bucket_of(
                self.entries@,
                self.bounds,
                k,
            )
    }

    /// The boxes of a tree that is in order can be computed with.
    pub proof fn lemma_boxes(&self)
        requires
            self.wf(),
        ensures
            self.spec_bounds().wf(),
            forall|i: int| 0 <= i < self@.len() ==> (#[trigger] self@[i]).0.wf(),
    {
    }

    /// An empty tree over the world from the origin to `size_hint`, taken
    /// to be at least one unit and at most the largest coordinate wide and
    /// high.
    pub fn new(size_hint: Vector2) -> (tree: LooseQuadTree)
        ensures
            tree.wf(),
            tree@ == Seq::<(Aabb, EntityId)>::empty(),
            tree.spec_bounds() == spec_bounds_for(size_hint),
    {
        let width: i64 = if size_hint.x < 1 {
            1
        } else if size_hint.x > POINT_LIMIT {
            POINT_LIMIT
        } else {
            size_hint.x
        };
        let height: i64 = if size_hint.y < 1 {
            1
        } else if size_hint.y > POINT_LIMIT {
            POINT_LIMIT
        } else {
            size_hint.y
        };
        let bounds = Bounds {
            origin: Vector2 { x: 0, y: 0 },
            size: Vector2 { x: width, y: height },
        };
        let mut cells: Vec<Vec<(Aabb, EntityId)>> = Vec::new();
        let mut k: usize = 0;
        while k < CELLS
            invariant
                0 <= k <= CELLS,
                cells@.len() == k,
                forall|c: int| 0 <= c < k ==> (#[trigger] cells@[c])@.len() == 0,
            decreases CELLS - k,
        {
            cells.push(Vec::new());
            k += 1;
        }
        let tree = LooseQuadTree { bounds, cells, entries: Ghost(Seq::empty()), count: 0 };
        proof {
            assert forall|c: int| 0 <= c < CELLS implies (#[trigger] tree.cells@[c])@ == bucket_of(
                tree.entries@,
                tree.bounds,
                c,
            ) by {
                assert(tree.cells@[c]@ =~= Seq::<(Aabb, EntityId)>::empty());
            }
        }
        tree
    }

    /// The part of the world that the tree subdivides.
    pub fn bounds(&self) -> (b: Bounds)
        ensures
            b == self.spec_bounds(),
    {
        self.bounds
    }

    /// How many entries the tree holds.
    pub fn len(&self) -> (n: usize)
        requires
            self.wf(),
        ensures
            n == self@.len(),
    {
        self.count
    }

    /// Empties the tree.
    pub fn clear(&mut self)
        requires
            old(self).wf(),
        ensures
            final(self).wf(),
            final(self)@ == Seq::<(Aabb, EntityId)>::empty(),
            final(self).spec_bounds() == old(self).spec_bounds(),
    {
        let mut k: usize = 0;
        while k < CELLS
            invariant
                0 <= k <= CELLS,
                self.cells@.len() == CELLS,
                self.bounds == old(self).bounds,
                forall|c: int| 0 <= c < k ==> (#[trigger] self.cells@[c])@.len() == 0,
            decreases CELLS - k,
        {
            self.cells[k].clear();
            k += 1;
        }
        self.entries = Ghost(Seq::empty());
        self.count = 0;
        proof {
            assert forall|c: int| 0 <= c < CELLS implies (#[trigger] self.cells@[c])@ == bucket_of(
                self.entries@,
                self.bounds,
                c,
            ) by {
                assert(self.cells@[c]@ =~= Seq::<(Aabb, EntityId)>::empty());
            }
        }
    }

    /// Adds the box `aabb` of the entity `id`.
    pub fn insert(&mut self, aabb: Aabb, id: EntityId)
        requires
            old(self).wf(),
            aabb.wf(),
            old(self)@.len() < usize::MAX,
        ensures
            final(self).wf(),
            final(self)@ == old(self)@.push((aabb, id)),
            final(self).spec_bounds() == old(self).spec_bounds(),
    {
        let k = self.bounds.cell_index(&aabb);
        let ghost before = self.entries@;
        let ghost cells_before = self.cells@;
        self.cells[k].push((aabb, id));
        self.entries = Ghost(before.push((aabb, id)));
        self.count += 1;
        proof {
            let after = self.entries@;
            assert(after.drop_last() =~= before);
            assert(after.last() == (aabb, id));
            assert forall|i: int| 0 <= i < after.len() implies (#[trigger] after[i]).0.wf() by {
                if i < before.len() {
                    assert(after[i] == before[i]);
                }
            }
            assert forall|c: int| 0 <= c < CELLS implies (#[trigger] self.cells@[c])@ == bucket_of(
                after,
                self.bounds,
                c,
            ) by {
                assert(cells_before[c]@ == bucket_of(before, self.bounds, c));
            }
        }
    }

    /// Appends to `found` the entries of the node `cell` whose box
    /// intersects `query`.
    fn scan(&self, cell: usize, query: &Aabb, found: &mut Vec<(Aabb, EntityId)>)
        requires
            self.wf(),
            query.wf(),
            cell < CELLS,
        ensures
            final(found)@ == old(found)@ + intersecting(
                bucket_of(self@, self.spec_bounds(), cell as int),
                *query,
            ),
    {
        let ghost bucket = self.cells@[cell as int]@;
        proof {
            lemma_bucket_members(self.entries@, self.bounds, cell as int);
        }
        let mut j: usize = 0;
        while j < self.cells[cell].len()
            invariant
                0 <= j <= bucket.len(),
                cell < CELLS,
                self.wf(),
                query.wf(),
                bucket == self.cells@[cell as int]@,
                bucket == bucket_of(self.entries@, self.bounds, cell as int),
                forall|i: int|
                    0 <= i < bucket.len() ==> self.entries@.contains(#[trigger] bucket[i]),
                found@ == old(found)@ + intersecting(bucket.take(j as int), *query),
            decreases bucket.len() - j,
        {
            let entry = self.cells[cell][j];
            proof {
                let upto = bucket.take(j as int + 1);
                assert(upto.drop_last() =~= bucket.take(j as int));
                assert(upto.last() == entry);
                assert(self.entries@.contains(bucket[j as int]));
                let at = choose|at: int|
                    0 <= at < self.entries@.len() && self.entries@[at] == bucket[j as int];
                assert(self.entries@[at].0.wf());
            }
            let ghost so_far = intersecting(bucket.take(j as int), *query);
            if entry.0.is_intersecting(query) {
                found.push(entry);
                proof {
                    assert(found@ =~= old(found)@ + so_far.push(entry));
                }
            }
            j += 1;
        }
        proof {
            assert(bucket.take(j as int) =~= bucket);
        }
    }

    /// The entries whose box intersects `query`: those of the root first,
    /// then level by level those of each node whose loose bounds `query`
    /// meets.
    pub fn for_each_intersection(&self, query: &Aabb) -> (found: Vec<(Aabb, EntityId)>)
        requires
            self.wf(),
            query.wf(),
        ensures
            found@ == spec_found(self@, self.spec_bounds(), *query),
    {
        let mut found: Vec<(Aabb, EntityId)> = Vec::new();
        self.scan(0, query, &mut found);
        proof {
            assert(cells_found(self@, self.bounds, *query, 0) =~= Seq::<(Aabb, EntityId)>::empty());
            assert(found@ =~= cells_found(self@, self.bounds, *query, 1));
        }
        let q_left: i64 = query.top_left.x;
        let q_top: i64 = query.top_left.y;
        let q_right: i64 = query.top_left.x + query.size.x;
        let q_bottom: i64 = query.top_left.y + query.size.y;
        let mut k: usize = 1;
        let mut level: usize = 1;
        while level <= DEPTH
            invariant
                1 <= level <= DEPTH + 1,
                k == first_cell(level as int),
                self.wf(),
                query.wf(),
                q_left == query.left(),
                q_top == query.top(),
                q_right == query.right(),
                q_bottom == query.bottom(),
                found@ == cells_found(self@, self.bounds, *query, k as int),
            decreases DEPTH + 1 - level,
        {
            let n: i64 = side_of(level);
            let cw: i64 = self.bounds.width_of_cell(level);
            let ch: i64 = self.bounds.height_of_cell(level);
            let mut row: i64 = 0;
            while row < n
                invariant
                    1 <= level <= DEPTH,
                    n == side(level as int),
                    cw == self.bounds.cell_width(level as int),
                    ch == self.bounds.cell_height(level as int),
                    1 <= cw <= POINT_LIMIT,
                    1 <= ch <= POINT_LIMIT,
                    0 <= row <= n,
                    k == first_cell(level as int) + row * n,
                    self.wf(),
                    query.wf(),
                    q_left == query.left(),
                    q_top == query.top(),
                    q_right == query.right(),
                    q_bottom == query.bottom(),
                    found@ == cells_found(self@, self.bounds, *query, k as int),
                decreases n - row,
            {
                let mut col: i64 = 0;
                while col < n
                    invariant
                        1 <= level <= DEPTH,
                        n == side(level as int),
                        cw == self.bounds.cell_width(level as int),
                        ch == self.bounds.cell_height(level as int),
                        1 <= cw <= POINT_LIMIT,
                        1 <= ch <= POINT_LIMIT,
                        0 <= row < n,
                        0 <= col <= n,
                        k == first_cell(level as int) + row * n + col,
                        self.wf(),
                        query.wf(),
                        q_left == query.left(),
                        q_top == query.top(),
                        q_right == query.right(),
                        q_bottom == query.bottom(),
                        found@ == cells_found(self@, self.bounds, *query, k as int),
                    decreases n - col,
                {
                    proof {
                        lemma_level_size(level as int);
                        assert(0 <= row * n + col < n * n) by (nonlinear_arith)
                            requires
                                0 <= row < n,
                                0 <= col < n,
                        ;
                        crate::vector::lemma_product_bound(col as int, cw as int, 16, POINT_LIMIT as int);
                        crate::vector::lemma_product_bound(col + 2, cw as int, 18, POINT_LIMIT as int);
                        crate::vector::lemma_product_bound(row as int, ch as int, 16, POINT_LIMIT as int);
                        crate::vector::lemma_product_bound(row + 2, ch as int, 18, POINT_LIMIT as int);
                    }
                    let x0: i64 = self.bounds.origin.x + col * cw;
                    let x1: i64 = self.bounds.origin.x + (col + 2) * cw;
                    let y0: i64 = self.bounds.origin.y + row * ch;
                    let y1: i64 = self.bounds.origin.y + (row + 2) * ch;
                    if x0 <= q_right && q_left <= x1 && y0 <= q_bottom && q_top <= y1 {
                        self.scan(k, query, &mut found);
                    } else {
                        proof {
                            lemma_cell_misses(
                                self.entries@,
                                self.bounds,
                                *query,
                                level as int,
                                row as int,
                                col as int,
                            );
                            assert(found@ + Seq::<(Aabb, EntityId)>::empty() =~= found@);
                        }
                    }
                    k += 1;
                    col += 1;
                }
                proof {
                    assert((row + 1) * n == row * n + n) by (nonlinear_arith);
                }
                row += 1;
            }
            proof {
                lemma_level_size(level as int);
            }
            level += 1;
        }
        found
    }
}

/// The world of a tree that is made for the size `size_hint`.
pub open spec fn spec_bounds_for(size_hint: Vector2) -> Bounds {
    Bounds {
        origin: Vector2 { x: 0, y: 0 },
        size: Vector2 {
            x: if size_hint.x < 1 {
                1
            } else if size_hint.x > POINT_LIMIT {
                POINT_LIMIT
            } else {
                size_hint.x
            },
            y: if size_hint.y < 1 {
                1
            } else if size_hint.y > POINT_LIMIT {
                POINT_LIMIT
            } else {
                size_hint.y
            },
        },
    }
}


/// Every box belongs to one of the nodes.
pub proof fn lemma_cell_in_range(bounds: Bounds, b: Aabb)
    requires
        bounds.wf(),
        b.wf(),
    ensures
        0 <= bounds.cell_of(b) < CELLS,
{
    if bounds.level_of(b) >= 1 {
        bounds.lemma_cell(b);
    }
}

proof fn lemma_found_grows(
    entries: Seq<(Aabb, EntityId)>,
    bounds: Bounds,
    query: Aabb,
    upto: int,
)
    requires
        entries.len() > 0,
        0 <= upto,
    ensures
        cells_found(entries, bounds, query, upto).to_multiset() == (if bounds.cell_of(
            entries.last().0,
        ) < upto && 0 <= bounds.cell_of(entries.last().0) && entries.last().0.intersects(query) {
            cells_found(entries.drop_last(), bounds, query, upto).to_multiset().insert(
                entries.last(),
            )
        } else {
            cells_found(entries.drop_last(), bounds, query, upto).to_multiset()
        }),
    decreases upto,
{
    let s = entries.drop_last();
    let e = entries.last();
    if upto > 0 {
        let c = upto - 1;
        lemma_found_grows(entries, bounds, query, c);
        let a_new = cells_found(entries, bounds, query, c);
        let a_old = cells_found(s, bounds, query, c);
        let b_old = intersecting(bucket_of(s, bounds, c), query);
        let b_new = intersecting(bucket_of(entries, bounds, c), query);
        vstd::seq_lib::lemma_multiset_commutative(a_new, b_new);
        vstd::seq_lib::lemma_multiset_commutative(a_old, b_old);
        if bounds.cell_of(e.0) == c {
            let bucket = bucket_of(s, bounds, c);
            assert(bucket_of(entries, bounds, c) == bucket.push(e));
            assert(bucket.push(e).drop_last() =~= bucket);
            assert(bucket.push(e).last() == e);
            if e.0.intersects(query) {
                assert(b_new == b_old.push(e));
                vstd::seq_lib::to_multiset_build(b_old, e);
                assert(a_old.to_multiset().add(b_old.to_multiset().insert(e)) =~= a_old.to_multiset().add(
                    b_old.to_multiset(),
                ).insert(e));
            } else {
                assert(b_new == b_old);
            }
        } else {
            assert(b_new == b_old);
            if bounds.cell_of(e.0) < c && 0 <= bounds.cell_of(e.0) && e.0.intersects(query) {
                assert(a_old.to_multiset().insert(e).add(b_old.to_multiset()) =~= a_old.to_multiset().add(
                    b_old.to_multiset(),
                ).insert(e));
            }
        }
    }
}

/// What a query finds is, in another order, what intersects it: every
/// entry whose box intersects the query is found as often as it was
/// inserted, and nothing else is found.
pub proof fn lemma_found_is_what_intersects(
    entries: Seq<(Aabb, EntityId)>,
    bounds: Bounds,
    query: Aabb,
)
    requires
        bounds.wf(),
        forall|i: int| 0 <= i < entries.len() ==> (#[trigger] entries[i]).0.wf(),
    ensures
        spec_found(entries, bounds, query).to_multiset() == intersecting(
            entries,
            query,
        ).to_multiset(),
    decreases entries.len(),
{
    if entries.len() == 0 {
        assert(entries =~= Seq::<(Aabb, EntityId)>::empty());
        lemma_found_of_nothing(bounds, query, CELLS as int);
    } else {
        let s = entries.drop_last();
        let e = entries.last();
        assert(e == entries[entries.len() - 1]);
        assert forall|i: int| 0 <= i < s.len() implies (#[trigger] s[i]).0.wf() by {
            assert(s[i] == entries[i]);
        }
        lemma_found_is_what_intersects(s, bounds, query);
        lemma_cell_in_range(bounds, e.0);
        lemma_found_grows(entries, bounds, query, CELLS as int);
        if e.0.intersects(query) {
            vstd::seq_lib::to_multiset_build(intersecting(s, query), e);
            assert(intersecting(entries, query) == intersecting(s, query).push(e));
        } else {
            assert(intersecting(entries, query) == intersecting(s, query));
        }
    }
}

proof fn lemma_found_of_nothing(bounds: Bounds, query: Aabb, upto: int)
    ensures
        cells_found(Seq::empty(), bounds, query, upto) == Seq::<(Aabb, EntityId)>::empty(),
    decreases upto,
{
    if upto > 0 {
        lemma_found_of_nothing(bounds, query, upto - 1);
        assert(Seq::<(Aabb, EntityId)>::empty() + Seq::<(Aabb, EntityId)>::empty()
            =~= Seq::<(Aabb, EntityId)>::empty());
    }
}

/// Every entry that is found was inserted, and its box intersects the
/// query.
pub proof fn lemma_found_sound(
    entries: Seq<(Aabb, EntityId)>,
    bounds: Bounds,
    query: Aabb,
    k: int,
)
    requires
        bounds.wf(),
        forall|i: int| 0 <= i < entries.len() ==> (#[trigger] entries[i]).0.wf(),
        0 <= k < spec_found(entries, bounds, query).len(),
    ensures
        entries.contains(spec_found(entries, bounds, query)[k]),
        spec_found(entries, bounds, query)[k].0.intersects(query),
{
    let found = spec_found(entries, bounds, query);
    let flat = intersecting(entries, query);
    lemma_found_is_what_intersects(entries, bounds, query);
    assert(found.contains(found[k]));
    vstd::seq_lib::to_multiset_contains(found, found[k]);
    vstd::seq_lib::to_multiset_contains(flat, found[k]);
    assert(flat.contains(found[k]));
    let j = choose|j: int| 0 <= j < flat.len() && flat[j] == found[k];
    lemma_intersecting_sound(entries, query, j);
}

/// Every entry of the order-keeping filter was inserted, and its box
/// intersects the query.
pub proof fn lemma_intersecting_sound(entries: Seq<(Aabb, EntityId)>, query: Aabb, k: int)
    requires
        0 <= k < intersecting(entries, query).len(),
    ensures
        entries.contains(intersecting(entries, query)[k]),
        intersecting(entries, query)[k].0.intersects(query),
    decreases entries.len(),
{
    if entries.len() > 0 {
        let before = intersecting(entries.drop_last(), query);
        let last = entries.last();
        assert(entries[entries.len() - 1] == last);
        if k < before.len() {
            lemma_intersecting_sound(entries.drop_last(), query, k);
            let j = choose|j: int|
                0 <= j < entries.drop_last().len() && entries.drop_last()[j] == before[k];
            assert(entries[j] == before[k]);
        }
    }
}

/// Every entry whose box intersects the query is found.
pub proof fn lemma_found_complete(
    entries: Seq<(Aabb, EntityId)>,
    bounds: Bounds,
    query: Aabb,
    i: int,
)
    requires
        bounds.wf(),
        forall|i: int| 0 <= i < entries.len() ==> (#[trigger] entries[i]).0.wf(),
        0 <= i < entries.len(),
        entries[i].0.intersects(query),
    ensures
        spec_found(entries, bounds, query).contains(entries[i]),
{
    let found = spec_found(entries, bounds, query);
    let flat = intersecting(entries, query);
    lemma_found_is_what_intersects(entries, bounds, query);
    lemma_intersecting_complete(entries, query, i);
    vstd::seq_lib::to_multiset_contains(found, entries[i]);
    vstd::seq_lib::to_multiset_contains(flat, entries[i]);
}

proof fn lemma_intersecting_complete(entries: Seq<(Aabb, EntityId)>, query: Aabb, i: int)
    requires
        0 <= i < entries.len(),
        entries[i].0.intersects(query),
    ensures
        intersecting(entries, query).contains(entries[i]),
    decreases entries.len(),
{
    let before = intersecting(entries.drop_last(), query);
    let found = intersecting(entries, query);
    if i == entries.len() - 1 {
        assert(found[found.len() - 1] == entries[i]);
    } else {
        lemma_intersecting_complete(entries.drop_last(), query, i);
        assert(entries.drop_last()[i] == entries[i]);
        let j = choose|j: int| 0 <= j < before.len() && before[j] == entries[i];
        assert(found[j] == entries[i]);
    }
}

} // verus!

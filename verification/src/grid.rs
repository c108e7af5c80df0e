//! Uniform-grid spatial index over agent positions.
//!
//! The index is built once from a sequence of agents and then only read.
//! It keeps, for every agent, its identity and position, files the agents
//! under the grid cell that holds their position, and answers range
//! queries by walking the cells around the query point.

use vstd::prelude::*;
use crate::agent::Agent;
use crate::fixed::{floor_quot, lemma_floor_div, LIMIT};
use crate::vec3::{lemma_square_range, Vec3, V3};

verus! {

/// What the index keeps of one agent.
#[derive(Clone, Copy, Debug, PartialEq, Eq, Structural)]
pub struct Point {
    pub id: u64,
    pub position: Vec3,
}

/// The point that stands for agent `a`.
pub open spec fn point_of(a: Agent) -> Point {
    Point { id: a.id, position: a.position }
}

/// The points that stand for `agents`, in the same order.
pub open spec fn points_of(agents: Seq<Agent>) -> Seq<Point> {
    Seq::new(agents.len(), |i: int| point_of(agents[i]))
}

/// Every point has a finite position.
pub open spec fn all_placed(points: Seq<Point>) -> bool {
    forall|i: int| 0 <= i < points.len() ==> (#[trigger] points[i]).position@.finite()
}

/// The grid cell that holds position `p` when cells have edge `cs`.
pub open spec fn cell_of(p: V3, cs: int) -> V3 {
    V3 { x: p.x / cs, y: p.y / cs, z: p.z / cs }
}

/// The indices below `n`, ascending, that satisfy `keep`.
pub open spec fn select(n: nat, keep: spec_fn(usize) -> bool) -> Seq<usize>
    decreases n,
{
    if n == 0 {
        Seq::empty()
    } else if keep((n - 1) as usize) {
        select((n - 1) as nat, keep).push((n - 1) as usize)
    } else {
        select((n - 1) as nat, keep)
    }
}

/// The members of `s`, in order, that satisfy `keep`.
pub open spec fn retain(s: Seq<usize>, keep: spec_fn(usize) -> bool) -> Seq<usize>
    decreases s.len(),
{
    if s.len() == 0 {
        Seq::empty()
    } else if keep(s.last()) {
        retain(s.drop_last(), keep).push(s.last())
    } else {
        retain(s.drop_last(), keep)
    }
}

/// `select` holds exactly the indices below `n` that satisfy `keep`.
pub proof fn lemma_select_contains(n: nat, keep: spec_fn(usize) -> bool, j: usize)
    requires
        n <= usize::MAX,
    ensures
        select(n, keep).contains(j) <==> j < n && keep(j),
    decreases n,
{
    if n > 0 {
        let last = (n - 1) as usize;
        let rest = select((n - 1) as nat, keep);
        lemma_select_contains((n - 1) as nat, keep, j);
        if keep(last) {
            let full = rest.push(last);
            assert(full[full.len() - 1] == last);
            if rest.contains(j) {
                let k = choose|k: int| 0 <= k < rest.len() && rest[k] == j;
                assert(full[k] == j);
            }
        }
    }
}

/// Retaining by `q` what was selected by `p` selects by both.
pub proof fn lemma_retain_select(
    n: nat,
    p: spec_fn(usize) -> bool,
    q: spec_fn(usize) -> bool,
    both: spec_fn(usize) -> bool,
)
    requires
        n <= usize::MAX,
        forall|j: usize| j < n ==> #[trigger] both(j) == (p(j) && q(j)),
    ensures
        retain(select(n, p), q) == select(n, both),
    decreases n,
{
    if n > 0 {
        let last = (n - 1) as usize;
        let rest = select((n - 1) as nat, p);
        lemma_retain_select((n - 1) as nat, p, q, both);
        if p(last) {
            assert(rest.push(last).drop_last() =~= rest);
        }
    }
}

/// The number of cells to walk on each side of the cell of the query point:
/// `radius / cell_size` rounded up, and at least one.
pub open spec fn rings(radius: int, cs: int) -> int {
    if radius <= cs {
        1
    } else {
        (radius + cs - 1) / cs
    }
}

/// The lowest cell to walk for a query at `p` with `radius`; no cell below
/// `-LIMIT` holds a finite position.
pub open spec fn box_low(p: V3, radius: int, cs: int) -> V3 {
    let c = cell_of(p, cs);
    let k = rings(radius, cs);
    V3 {
        x: if c.x - k < -LIMIT { -LIMIT as int } else { c.x - k },
        y: if c.y - k < -LIMIT { -LIMIT as int } else { c.y - k },
        z: if c.z - k < -LIMIT { -LIMIT as int } else { c.z - k },
    }
}

/// The highest cell to walk for a query at `p` with `radius`; no cell above
/// `LIMIT` holds a finite position.
pub open spec fn box_high(p: V3, radius: int, cs: int) -> V3 {
    let c = cell_of(p, cs);
    let k = rings(radius, cs);
    V3 {
        x: if c.x + k > LIMIT { LIMIT as int } else { c.x + k },
        y: if c.y + k > LIMIT { LIMIT as int } else { c.y + k },
        z: if c.z + k > LIMIT { LIMIT as int } else { c.z + k },
    }
}

/// Cell `c` lies in the box from `lo` to `hi`, both included.
pub open spec fn in_box(c: V3, lo: V3, hi: V3) -> bool {
    &&& lo.x <= c.x <= hi.x
    &&& lo.y <= c.y <= hi.y
    &&& lo.z <= c.z <= hi.z
}

/// A range query as the index sees it: the indexed points, the cell edge,
/// the query point, and the distance beyond which a point is dropped.
pub struct Probe {
    pub points: Seq<Point>,
    pub cell_size: int,
    pub center: V3,
    pub reach: int,
}

impl Probe {
    /// Point `j` is within reach of the query point.
    pub open spec fn near(self, j: usize) -> bool {
        self.points[j as int].position@.dist2(self.center) <= self.reach * self.reach
    }

    /// Point `j` lies in cell `c` and within reach of the query point.
    pub open spec fn hit(self, c: V3, j: usize) -> bool {
        cell_of(self.points[j as int].position@, self.cell_size) == c && self.near(j)
    }

    pub open spec fn hits(self, c: V3) -> spec_fn(usize) -> bool {
        |j: usize| self.hit(c, j)
    }

    /// The points of cell `c` within reach, by ascending index.
    pub open spec fn occupants(self, c: V3) -> Seq<usize> {
        select(self.points.len(), self.hits(c))
    }

    /// What the cells `(x, y, z)` with `z_lo <= z < z_end` yield, by ascending `z`.
    pub open spec fn column(self, x: int, y: int, z_lo: int, z_end: int) -> Seq<usize>
        decreases z_end - z_lo,
    {
        if z_end <= z_lo {
            Seq::empty()
        } else {
            self.column(x, y, z_lo, z_end - 1) + self.occupants(V3 { x, y, z: z_end - 1 })
        }
    }

    /// What the columns `(x, y)` with `lo.y <= y < y_end` yield, by ascending `y`.
    pub open spec fn slab(self, x: int, lo: V3, hi: V3, y_end: int) -> Seq<usize>
        decreases y_end - lo.y,
    {
        if y_end <= lo.y {
            Seq::empty()
        } else {
            self.slab(x, lo, hi, y_end - 1) + self.column(x, y_end - 1, lo.z, hi.z + 1)
        }
    }

    /// What the slabs `x` with `lo.x <= x < x_end` yield, by ascending `x`.
    pub open spec fn block(self, lo: V3, hi: V3, x_end: int) -> Seq<usize>
        decreases x_end - lo.x,
    {
        if x_end <= lo.x {
            Seq::empty()
        } else {
            self.block(lo, hi, x_end - 1) + self.slab(x_end - 1, lo, hi, hi.y + 1)
        }
    }
}

/// The indices of the points that a query at `p` with `radius` yields: the
/// cells of the box around `p` are walked by ascending `x`, then `y`, then
/// `z`; each cell yields, by ascending index, its points that lie no farther
/// from `p` than `radius + cs`.
pub open spec fn candidates(points: Seq<Point>, cs: int, p: V3, radius: int) -> Seq<usize> {
    if radius < 0 {
        Seq::empty()
    } else {
        let probe = Probe { points, cell_size: cs, center: p, reach: radius + cs };
        let hi = box_high(p, radius, cs);
        probe.block(box_low(p, radius, cs), hi, hi.x + 1)
    }
}

/// The identities of the points that a query at `p` with `radius` yields.
pub open spec fn neighbor_ids(points: Seq<Point>, cs: int, p: V3, radius: int) -> Seq<u64> {
    candidates(points, cs, p, radius).map_values(|j: usize| points[j as int].id)
}

/// A concatenation holds what either part holds.
pub proof fn lemma_concat_contains(a: Seq<usize>, b: Seq<usize>, j: usize)
    ensures
        (a + b).contains(j) <==> a.contains(j) || b.contains(j),
{
    let ab = a + b;
    if a.contains(j) {
        let k = choose|k: int| 0 <= k < a.len() && a[k] == j;
        assert(ab[k] == j);
    }
    if b.contains(j) {
        let k = choose|k: int| 0 <= k < b.len() && b[k] == j;
        assert(ab[a.len() + k] == j);
    }
    if ab.contains(j) {
        let k = choose|k: int| 0 <= k < ab.len() && ab[k] == j;
        if k < a.len() {
            assert(a[k] == j);
        } else {
            assert(b[k - a.len()] == j);
        }
    }
}

impl Probe {
    /// A column holds the points within reach whose cell is one of its cells.
    pub proof fn lemma_column_contains(self, x: int, y: int, z_lo: int, z_end: int, j: usize)
        requires
            self.points.len() <= usize::MAX,
        ensures
            self.column(x, y, z_lo, z_end).contains(j) <==> {
                let c = cell_of(self.points[j as int].position@, self.cell_size);
                j < self.points.len() && self.near(j) && c.x == x && c.y == y && z_lo <= c.z
                    < z_end
            },
        decreases z_end - z_lo,
    {
        if z_end > z_lo {
            self.lemma_column_contains(x, y, z_lo, z_end - 1, j);
            let c = V3 { x, y, z: z_end - 1 };
            lemma_select_contains(self.points.len(), self.hits(c), j);
            lemma_concat_contains(self.column(x, y, z_lo, z_end - 1), self.occupants(c), j);
        }
    }

    /// A slab holds the points within reach whose cell is in one of its columns.
    pub proof fn lemma_slab_contains(self, x: int, lo: V3, hi: V3, y_end: int, j: usize)
        requires
            self.points.len() <= usize::MAX,
        ensures
            self.slab(x, lo, hi, y_end).contains(j) <==> {
                let c = cell_of(self.points[j as int].position@, self.cell_size);
                j < self.points.len() && self.near(j) && c.x == x && lo.y <= c.y < y_end && lo.z
                    <= c.z <= hi.z
            },
        decreases y_end - lo.y,
    {
        if y_end > lo.y {
            self.lemma_slab_contains(x, lo, hi, y_end - 1, j);
            self.lemma_column_contains(x, y_end - 1, lo.z, hi.z + 1, j);
            lemma_concat_contains(
                self.slab(x, lo, hi, y_end - 1),
                self.column(x, y_end - 1, lo.z, hi.z + 1),
                j,
            );
        }
    }

    /// A block holds the points within reach whose cell is in one of its slabs.
    pub proof fn lemma_block_contains(self, lo: V3, hi: V3, x_end: int, j: usize)
        requires
            self.points.len() <= usize::MAX,
        ensures
            self.block(lo, hi, x_end).contains(j) <==> {
                let c = cell_of(self.points[j as int].position@, self.cell_size);
                j < self.points.len() && self.near(j) && lo.x <= c.x < x_end && lo.y <= c.y
                    <= hi.y && lo.z <= c.z <= hi.z
            },
        decreases x_end - lo.x,
    {
        if x_end > lo.x {
            self.lemma_block_contains(lo, hi, x_end - 1, j);
            self.lemma_slab_contains(x_end - 1, lo, hi, hi.y + 1, j);
            lemma_concat_contains(
                self.block(lo, hi, x_end - 1),
                self.slab(x_end - 1, lo, hi, hi.y + 1),
                j,
            );
        }
    }
}

/// A query yields exactly the points whose cell lies in the walked box and
/// whose distance from the query point is at most `radius + cs`.
pub proof fn lemma_candidates_exact(points: Seq<Point>, cs: int, p: V3, radius: int, j: usize)
    requires
        points.len() <= usize::MAX,
    ensures
        candidates(points, cs, p, radius).contains(j) <==> {
            &&& radius >= 0
            &&& j < points.len()
            &&& in_box(
                cell_of(points[j as int].position@, cs),
                box_low(p, radius, cs),
                box_high(p, radius, cs),
            )
            &&& points[j as int].position@.dist2(p) <= (radius + cs) * (radius + cs)
        },
{
    if radius >= 0 {
        let probe = Probe { points, cell_size: cs, center: p, reach: radius + cs };
        let hi = box_high(p, radius, cs);
        probe.lemma_block_contains(box_low(p, radius, cs), hi, hi.x + 1, j);
    }
}

/// `radius` is covered by `rings` cells.
pub proof fn lemma_rings_cover(radius: int, cs: int)
    requires
        radius >= 0,
        cs >= 1,
    ensures
        rings(radius, cs) >= 1,
        radius <= rings(radius, cs) * cs,
{
    if radius > cs {
        let k = (radius + cs - 1) / cs;
        lemma_floor_div(radius + cs - 1, cs);
        assert((k + 1) * cs == k * cs + cs) by (nonlinear_arith);
        assert(k >= 1) by (nonlinear_arith)
            requires
                k * cs + cs > radius + cs - 1,
                radius > cs,
                cs >= 1,
        ;
    }
}

/// Two coordinates no farther apart than `k` cells' worth lie in cells no
/// farther apart than `k`.
pub proof fn lemma_cells_apart(a: int, p: int, k: int, cs: int)
    requires
        cs >= 1,
        k >= 0,
        p - k * cs <= a <= p + k * cs,
    ensures
        p / cs - k <= a / cs <= p / cs + k,
{
    lemma_floor_div(a, cs);
    lemma_floor_div(p, cs);
    let qa = a / cs;
    let qp = p / cs;
    assert(qa <= qp + k) by (nonlinear_arith)
        requires
            qa * cs <= a,
            a <= p + k * cs,
            p < (qp + 1) * cs,
            cs >= 1,
    ;
    assert(qp - k <= qa) by (nonlinear_arith)
        requires
            qp * cs <= p,
            p - k * cs <= a,
            a < (qa + 1) * cs,
            cs >= 1,
    ;
}

/// No false negatives: a query yields every point that lies within
/// `radius` of the query point.
pub proof fn lemma_no_false_negatives(points: Seq<Point>, cs: int, p: V3, radius: int, j: usize)
    requires
        points.len() <= usize::MAX,
        all_placed(points),
        1 <= cs <= LIMIT,
        radius >= 0,
        j < points.len(),
        points[j as int].position@.dist2(p) <= radius * radius,
    ensures
        candidates(points, cs, p, radius).contains(j),
{
    let a = points[j as int].position@;
    let d = a.minus(p);
    let k = rings(radius, cs);
    crate::vec3::lemma_norm_bounds_components(d, radius);
    lemma_rings_cover(radius, cs);
    lemma_cells_apart(a.x, p.x, k, cs);
    lemma_cells_apart(a.y, p.y, k, cs);
    lemma_cells_apart(a.z, p.z, k, cs);
    lemma_floor_div(a.x, cs);
    lemma_floor_div(a.y, cs);
    lemma_floor_div(a.z, cs);
    assert(radius * radius <= (radius + cs) * (radius + cs)) by (nonlinear_arith)
        requires
            radius >= 0,
            cs >= 1,
    ;
    lemma_candidates_exact(points, cs, p, radius, j);
}

/// Building is repeatable: two indexes built from the same agents with the
/// same cell size answer every query alike.
pub proof fn lemma_rebuilt_answers_alike(
    first: SpatialIndex,
    second: SpatialIndex,
    agents: Seq<Agent>,
    cs: int,
    p: V3,
    radius: int,
)
    requires
        first.points() == points_of(agents) && first.cell_size() == cs,
        second.points() == points_of(agents) && second.cell_size() == cs,
    ensures
        candidates(first.points(), first.cell_size(), p, radius) == candidates(
            second.points(),
            second.cell_size(),
            p,
            radius,
        ),
        neighbor_ids(first.points(), first.cell_size(), p, radius) == neighbor_ids(
            second.points(),
            second.cell_size(),
            p,
            radius,
        ),
{
}

/// The bucket under which cell `c` is filed when there are `buckets` of them.
spec fn slot(c: V3, buckets: int) -> int {
    (((c.x + LIMIT) * 73_856_093 + (c.y + LIMIT)) * 19_349_663 + (c.z + LIMIT)) % buckets
}

/// Whether the cell at index `j` of `cells` is filed under bucket `b`.
spec fn filed(cells: Seq<Vec3>, buckets: int, b: int) -> spec_fn(usize) -> bool {
    |j: usize| slot(cells[j as int]@, buckets) == b
}

/// A uniform grid over the positions of a fixed sequence of agents.
#[derive(Debug)]
pub struct SpatialIndex {
    cell_size: i64,
    points: Vec<Point>,
    cells: Vec<Vec3>,
    buckets: Vec<Vec<usize>>,
}

/// Computes the bucket of cell `c`.
fn slot_of(c: Vec3, buckets: usize) -> (b: usize)
    requires
        c@.finite(),
        buckets > 0,
    ensures
        b == slot(c@, buckets as int),
        b < buckets,
{
    let top: i128 = LIMIT as i128;
    let mixed: i128 = ((c.x as i128 + top) * 73_856_093 + (c.y as i128 + top)) * 19_349_663 + (
    c.z as i128 + top);
    proof {
        vstd::arithmetic::div_mod::lemma_mod_bound(mixed as int, buckets as int);
    }
    (mixed % (buckets as i128)) as usize
}

/// Computes the cell that holds the finite position `p`.
fn cell_at(p: Vec3, cell_size: i64) -> (c: Vec3)
    requires
        p@.finite(),
        1 <= cell_size <= LIMIT,
    ensures
        c@ == cell_of(p@, cell_size as int),
        c@.finite(),
{
    proof {
        lemma_floor_div(p.x as int, cell_size as int);
        lemma_floor_div(p.y as int, cell_size as int);
        lemma_floor_div(p.z as int, cell_size as int);
    }
    Vec3 {
        x: floor_quot(p.x, cell_size),
        y: floor_quot(p.y, cell_size),
        z: floor_quot(p.z, cell_size),
    }
}

/// Whether the finite position `a` lies no farther than `reach` from `p`.
fn within_reach(a: Vec3, p: Vec3, reach: i128) -> (b: bool)
    requires
        a@.finite(),
        0 <= reach <= 9_223_373_036_854_775_808,
    ensures
        b == (a@.dist2(p@) <= reach * reach),
{
    let dx: i128 = a.x as i128 - p.x as i128;
    let dy: i128 = a.y as i128 - p.y as i128;
    let dz: i128 = a.z as i128 - p.z as i128;
    let ax: u128 = if dx < 0 { (-dx) as u128 } else { dx as u128 };
    let ay: u128 = if dy < 0 { (-dy) as u128 } else { dy as u128 };
    let az: u128 = if dz < 0 { (-dz) as u128 } else { dz as u128 };
    let far: u128 = reach as u128;
    proof {
        lemma_square_range(ax as int, 9_223_373_036_854_775_808);
        lemma_square_range(ay as int, 9_223_373_036_854_775_808);
        lemma_square_range(az as int, 9_223_373_036_854_775_808);
        lemma_square_range(far as int, 9_223_373_036_854_775_808);
        assert(ax * ax == dx * dx) by (nonlinear_arith)
            requires
                ax == dx || ax == -dx,
        ;
        assert(ay * ay == dy * dy) by (nonlinear_arith)
            requires
                ay == dy || ay == -dy,
        ;
        assert(az * az == dz * dz) by (nonlinear_arith)
            requires
                az == dz || az == -dz,
        ;
    }
    ax * ax + ay * ay + az * az <= far * far
}

/// The prefix of length `i + 1` extends the prefix of length `i` by element `i`.
proof fn lemma_prefix_step(s: Seq<usize>, i: int)
    requires
        0 <= i < s.len(),
    ensures
        s.take(i + 1).drop_last() == s.take(i),
        s.take(i + 1).last() == s[i],
        s.take(i + 1).len() == i + 1,
{
    assert(s.take(i + 1).drop_last() =~= s.take(i));
}

impl SpatialIndex {
    /// The edge length of a grid cell.
    pub closed spec fn cell_size(&self) -> int {
        self.cell_size as int
    }

    /// The indexed points, in the order of the agents the index was built from.
    pub closed spec fn points(&self) -> Seq<Point> {
        self.points@
    }

    #[verifier::type_invariant]
    spec fn inv(&self) -> bool {
        &&& 1 <= self.cell_size <= LIMIT
        &&& self.cells@.len() == self.points@.len()
        &&& self.buckets@.len() >= 1
        &&& all_placed(self.points@)
        &&& forall|j: int|
            0 <= j < self.points@.len() ==> (#[trigger] self.cells@[j])@ == cell_of(
                self.points@[j].position@,
                self.cell_size as int,
            )
        &&& forall|b: int|
            0 <= b < self.buckets@.len() ==> (#[trigger] self.buckets@[b])@ == select(
                self.points@.len(),
                filed(self.cells@, self.buckets@.len() as int, b),
            )
    }

    /// The number of indexed points.
    pub fn len(&self) -> (n: usize)
        ensures
            n == self.points().len(),
    {
        self.points.len()
    }

    /// Builds the index of `agents` with cells of edge `cell_size`.
    ///
    /// Fails when `cell_size` is not a positive finite value or when an
    /// agent's position is not finite.
    pub fn build(agents: &Vec<Agent>, cell_size: i64) -> (r: Option<SpatialIndex>)
        ensures
            r.is_some() <==> 1 <= cell_size <= LIMIT && all_placed(points_of(agents@)),
            r matches Some(index) ==> index.cell_size() == cell_size && index.points()
                == points_of(agents@),
    {
        if cell_size < 1 || cell_size > LIMIT {
            return None;
        }
        let n = agents.len();
        let mut points: Vec<Point> = Vec::new();
        let mut cells: Vec<Vec3> = Vec::new();
        let mut i: usize = 0;
        while i < n
            invariant
                i <= n,
                n == agents@.len(),
                1 <= cell_size <= LIMIT,
                points@.len() == i,
                cells@.len() == i,
                forall|j: int| 0 <= j < i ==> #[trigger] points@[j] == point_of(agents@[j]),
                forall|j: int| 0 <= j < i ==> (#[trigger] points@[j]).position@.finite(),
                forall|j: int|
                    0 <= j < i ==> (#[trigger] cells@[j])@ == cell_of(
                        points@[j].position@,
                        cell_size as int,
                    ),
                forall|j: int| 0 <= j < i ==> (#[trigger] cells@[j])@.finite(),
            decreases n - i,
        {
            let a = agents[i];
            if !a.position.is_finite() {
                proof {
                    assert(points_of(agents@)[i as int] == point_of(agents@[i as int]));
                }
                return None;
            }
            points.push(Point { id: a.id, position: a.position });
            cells.push(cell_at(a.position, cell_size));
            i += 1;
        }
        proof {
            assert(points@ =~= points_of(agents@));
        }
        let count: usize = if n == 0 {
            1
        } else {
            n
        };
        let mut buckets: Vec<Vec<usize>> = Vec::new();
        let mut b: usize = 0;
        while b < count
            invariant
                b <= count,
                buckets@.len() == b,
                forall|k: int| 0 <= k < b ==> (#[trigger] buckets@[k])@ == Seq::<usize>::empty(),
            decreases count - b,
        {
            buckets.push(Vec::new());
            b += 1;
        }
        let mut j: usize = 0;
        while j < n
            invariant
                j <= n,
                count >= 1,
                cells@.len() == n,
                buckets@.len() == count,
                forall|k: int| 0 <= k < n ==> (#[trigger] cells@[k])@.finite(),
                forall|k: int|
                    0 <= k < count ==> (#[trigger] buckets@[k])@ == select(
                        j as nat,
                        filed(cells@, count as int, k),
                    ),
            decreases n - j,
        {
            let s = slot_of(cells[j], count);
            let ghost before = buckets@;
            buckets[s].push(j);
            proof {
                assert forall|k: int| 0 <= k < count implies (#[trigger] buckets@[k])@ == select(
                    (j + 1) as nat,
                    filed(cells@, count as int, k),
                ) by {
                    if k != s {
                        assert(buckets@[k] == before[k]);
                    }
                }
            }
            j += 1;
        }
        Some(SpatialIndex { cell_size, points, cells, buckets })
    }

    /// The query that `position` and `reach` pose to this index.
    pub open spec fn probe(&self, position: V3, reach: int) -> Probe {
        Probe { points: self.points(), cell_size: self.cell_size(), center: position, reach }
    }

    /// Appends to `out` the points of cell `c` that lie within `reach` of
    /// `position`, by ascending index.
    fn scan_cell(&self, c: Vec3, position: Vec3, reach: i128, out: &mut Vec<usize>)
        requires
            c@.finite(),
            0 <= reach <= 9_223_373_036_854_775_808,
        ensures
            final(out)@ == old(out)@ + self.probe(position@, reach as int).occupants(c@),
    {
        proof {
            use_type_invariant(self);
        }
        let ghost base = out@;
        let ghost probe = self.probe(position@, reach as int);
        let total = self.points.len();
        let ghost n = self.points@.len();
        let count = self.buckets.len();
        let b = slot_of(c, count);
        let bucket = &self.buckets[b];
        let ghost mine = filed(self.cells@, count as int, b as int);
        let mut t: usize = 0;
        while t < bucket.len()
            invariant
                t <= bucket@.len(),
                c@.finite(),
                0 <= reach <= 9_223_373_036_854_775_808,
                n == self.points@.len(),
                n == total,
                self.cells@.len() == n,
                all_placed(self.points@),
                probe == self.probe(position@, reach as int),
                bucket@ == select(n, mine),
                forall|j: int|
                    0 <= j < n ==> (#[trigger] self.cells@[j])@ == cell_of(
                        self.points@[j].position@,
                        self.cell_size as int,
                    ),
                out@ == base + retain(bucket@.take(t as int), probe.hits(c@)),
            decreases bucket@.len() - t,
        {
            let j = bucket[t];
            proof {
                lemma_prefix_step(bucket@, t as int);
                lemma_select_contains(n, mine, j);
                assert(bucket@.contains(j));
            }
            let cell = self.cells[j];
            if cell.x == c.x && cell.y == c.y && cell.z == c.z && within_reach(
                self.points[j].position,
                position,
                reach,
            ) {
                out.push(j);
                proof {
                    assert(probe.hit(c@, j));
                    assert(out@ =~= base + retain(bucket@.take(t + 1), probe.hits(c@)));
                }
            } else {
                proof {
                    assert(!probe.hit(c@, j));
                }
            }
            t += 1;
        }
        proof {
            assert(bucket@.take(t as int) =~= bucket@);
            assert forall|j: usize| j < n implies #[trigger] probe.hits(c@)(j) == (mine(j)
                && probe.hits(c@)(j)) by {
                if probe.hit(c@, j) {
                    assert(self.cells@[j as int]@ == c@);
                }
            }
            lemma_retain_select(n, mine, probe.hits(c@), probe.hits(c@));
        }
    }

    /// Finds the indexed points around `position`: every point within
    /// `radius`, and none farther than `radius` plus one cell edge. The
    /// result holds indices into [`Self::points`].
    pub fn candidates(&self, position: Vec3, radius: i64) -> (found: Vec<usize>)
        ensures
            found@ == candidates(self.points(), self.cell_size(), position@, radius as int),
    {
        proof {
            use_type_invariant(self);
        }
        let mut out: Vec<usize> = Vec::new();
        if radius < 0 {
            return out;
        }
        let cs = self.cell_size;
        let edge: i128 = cs as i128;
        let top: i128 = LIMIT as i128;
        let k: i128 = if radius <= cs {
            1
        } else {
            (radius as i128 + edge - 1) / edge
        };
        proof {
            lemma_rings_cover(radius as int, cs as int);
            if radius > cs {
                lemma_floor_div(radius + cs - 1, cs as int);
            }
        }
        let cx: i128 = floor_quot(position.x, cs) as i128;
        let cy: i128 = floor_quot(position.y, cs) as i128;
        let cz: i128 = floor_quot(position.z, cs) as i128;
        let lo_x: i128 = if cx - k < -top { -top } else { cx - k };
        let lo_y: i128 = if cy - k < -top { -top } else { cy - k };
        let lo_z: i128 = if cz - k < -top { -top } else { cz - k };
        let hi_x: i128 = if cx + k > top { top } else { cx + k };
        let hi_y: i128 = if cy + k > top { top } else { cy + k };
        let hi_z: i128 = if cz + k > top { top } else { cz + k };
        let reach: i128 = radius as i128 + edge;
        let ghost probe = self.probe(position@, reach as int);
        let ghost lo = V3 { x: lo_x as int, y: lo_y as int, z: lo_z as int };
        let ghost hi = V3 { x: hi_x as int, y: hi_y as int, z: hi_z as int };
        proof {
            assert(lo == box_low(position@, radius as int, cs as int));
            assert(hi == box_high(position@, radius as int, cs as int));
        }
        let mut x: i128 = lo_x;
        while x <= hi_x
            invariant
                -LIMIT <= lo_x <= x,
                x <= hi_x + 1 || x == lo_x,
                hi_x <= LIMIT,
                -LIMIT <= lo_y,
                hi_y <= LIMIT,
                -LIMIT <= lo_z,
                hi_z <= LIMIT,
                0 <= reach <= 9_223_373_036_854_775_808,
                lo == (V3 { x: lo_x as int, y: lo_y as int, z: lo_z as int }),
                hi == (V3 { x: hi_x as int, y: hi_y as int, z: hi_z as int }),
                probe == self.probe(position@, reach as int),
                out@ == probe.block(lo, hi, x as int),
            decreases hi_x + 1 - x,
        {
            let ghost done_x = out@;
            let mut y: i128 = lo_y;
            while y <= hi_y
                invariant
                    -LIMIT <= lo_x <= x <= hi_x <= LIMIT,
                    -LIMIT <= lo_y <= y,
                    y <= hi_y + 1 || y == lo_y,
                    hi_y <= LIMIT,
                    -LIMIT <= lo_z,
                    hi_z <= LIMIT,
                    0 <= reach <= 9_223_373_036_854_775_808,
                    lo == (V3 { x: lo_x as int, y: lo_y as int, z: lo_z as int }),
                    hi == (V3 { x: hi_x as int, y: hi_y as int, z: hi_z as int }),
                    probe == self.probe(position@, reach as int),
                    out@ == done_x + probe.slab(x as int, lo, hi, y as int),
                decreases hi_y + 1 - y,
            {
                let ghost done_y = out@;
                let mut z: i128 = lo_z;
                while z <= hi_z
                    invariant
                        -LIMIT <= lo_x <= x <= hi_x <= LIMIT,
                        -LIMIT <= lo_y <= y <= hi_y <= LIMIT,
                        -LIMIT <= lo_z <= z,
                        z <= hi_z + 1 || z == lo_z,
                        hi_z <= LIMIT,
                        0 <= reach <= 9_223_373_036_854_775_808,
                        probe == self.probe(position@, reach as int),
                        out@ == done_y + probe.column(x as int, y as int, lo_z as int, z as int),
                    decreases hi_z + 1 - z,
                {
                    let c = Vec3 { x: x as i64, y: y as i64, z: z as i64 };
                    self.scan_cell(c, position, reach, &mut out);
                    proof {
                        assert(out@ =~= done_y + probe.column(
                            x as int,
                            y as int,
                            lo_z as int,
                            z + 1,
                        ));
                    }
                    z += 1;
                }
                proof {
                    assert(probe.column(x as int, y as int, lo_z as int, z as int)
                        == probe.column(x as int, y as int, lo.z, hi.z + 1));
                    assert(out@ =~= done_x + probe.slab(x as int, lo, hi, y + 1));
                }
                y += 1;
            }
            proof {
                assert(probe.slab(x as int, lo, hi, y as int) == probe.slab(
                    x as int,
                    lo,
                    hi,
                    hi.y + 1,
                ));
                assert(out@ =~= probe.block(lo, hi, x + 1));
            }
            x += 1;
        }
        proof {
            assert(probe.block(lo, hi, x as int) == probe.block(lo, hi, hi.x + 1));
        }
        out
    }

    /// Finds the agents around `position`: the identity of every indexed
    /// agent within `radius` is in the result, and of none farther away than
    /// `radius` plus one cell edge. An empty index yields an empty result.
    pub fn neighbors(&self, position: Vec3, radius: i64) -> (ids: Vec<u64>)
        ensures
            ids@ == neighbor_ids(self.points(), self.cell_size(), position@, radius as int),
            forall|j: int|
                0 <= j < self.points().len() && radius >= 0 && (#[trigger] self.points()[j]).position@.dist2(
                    position@,
                ) <= radius * radius ==> ids@.contains(self.points()[j].id),
            forall|k: int|
                0 <= k < ids@.len() ==> exists|j: int|
                    0 <= j < self.points().len() && self.points()[j].id == #[trigger] ids@[k]
                        && self.points()[j].position@.dist2(position@) <= (radius
                        + self.cell_size()) * (radius + self.cell_size()),
            self.points().len() == 0 ==> ids@.len() == 0,
    {
        proof {
            use_type_invariant(self);
        }
        let found = self.candidates(position, radius);
        let total = self.points.len();
        let ghost points = self.points@;
        let ghost cs = self.cell_size as int;
        proof {
            assert forall|k: int| 0 <= k < found@.len() implies (#[trigger] found@[k])
                < points.len() && points[found@[k] as int].position@.dist2(position@) <= (radius
                + cs) * (radius + cs) by {
                lemma_candidates_exact(points, cs, position@, radius as int, found@[k]);
                assert(found@.contains(found@[k]));
            }
        }
        let mut ids: Vec<u64> = Vec::new();
        let mut k: usize = 0;
        while k < found.len()
            invariant
                k <= found@.len(),
                points == self.points@,
                points.len() == total,
                ids@.len() == k,
                forall|t: int| 0 <= t < found@.len() ==> (#[trigger] found@[t]) < points.len(),
                forall|t: int| 0 <= t < k ==> #[trigger] ids@[t] == points[found@[t] as int].id,
            decreases found@.len() - k,
        {
            ids.push(self.points[found[k]].id);
            k += 1;
        }
        proof {
            assert(ids@ =~= neighbor_ids(points, cs, position@, radius as int));
            assert forall|j: int|
                0 <= j < points.len() && radius >= 0 && (#[trigger] points[j]).position@.dist2(
                    position@,
                ) <= radius * radius implies ids@.contains(points[j].id) by {
                lemma_no_false_negatives(points, cs, position@, radius as int, j as usize);
                let t = choose|t: int| 0 <= t < found@.len() && found@[t] == j as usize;
                assert(ids@[t] == points[j].id);
            }
            assert forall|k: int| 0 <= k < ids@.len() implies exists|j: int|
                0 <= j < points.len() && points[j].id == #[trigger] ids@[k]
                    && points[j].position@.dist2(position@) <= (radius + cs) * (radius + cs) by {
                let j = found@[k] as int;
                assert(points[j].id == ids@[k]);
            }
            if points.len() == 0 && found@.len() > 0 {
                assert(found@[0] < points.len());
            }
        }
        ids
    }
}

} // verus!

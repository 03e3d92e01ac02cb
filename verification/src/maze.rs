//! Maze generation by recursive backtracking over a 2-cell-stride lattice.
//!
//! A maze is a rectangular occupancy grid (`true` = wall, `false` = open)
//! with odd dimensions, a solid border, and one-cell-wide corridors carved
//! between lattice points (cells with two odd coordinates). Generation
//! walks the lattice depth-first with an explicit stack, carving the wall
//! between a lattice point and a randomly chosen unvisited neighbor.

use vstd::prelude::*;
use crate::fixed::FP;

verus! {

broadcast use vstd::seq_lib::lemma_seq_contains_after_push;

/// Occupancy grid of the maze: `cells[y][x]` is `true` for a wall,
/// `false` for an open cell. Immutable after construction.
pub struct Maze {
    pub width: usize,
    pub height: usize,
    pub cells: Vec<Vec<bool>>,
}

/// The grid is rectangular with the stated dimensions, both of them odd,
/// at least 5 and small enough for the fixed-point geometry not to
/// overflow.
pub open spec fn maze_wf(m: Maze) -> bool {
    &&& 5 <= m.width <= 999
    &&& 5 <= m.height <= 999
    &&& m.width % 2 == 1
    &&& m.height % 2 == 1
    &&& m.cells@.len() == m.height
    &&& forall|y: int| 0 <= y < m.height ==> (#[trigger] m.cells@[y])@.len() == m.width
}

impl Maze {
    /// Well-formedness of the grid shape; established by every
    /// constructor and preserved by every method.
    pub open spec fn wf(self) -> bool {
        maze_wf(self)
    }

    /// The raw cell value at in-range coordinates.
    pub open spec fn spec_cell(self, x: int, y: int) -> bool {
        self.cells@[y]@[x]
    }

    /// Wall query as the ray caster and movement see it: coordinates
    /// outside the grid count as walls.
    pub open spec fn spec_is_wall(self, x: int, y: int) -> bool {
        if 0 <= x < self.width && 0 <= y < self.height {
            self.spec_cell(x, y)
        } else {
            true
        }
    }

    /// Every cell on the outer border of the grid is a wall.
    pub open spec fn border_walled(self) -> bool {
        forall|x: int, y: int|
            0 <= x < self.width && 0 <= y < self.height && (x == 0 || y == 0
                || x == self.width - 1 || y == self.height - 1)
                ==> #[trigger] self.spec_cell(x, y)
    }
}

/// Two cells share an edge.
pub open spec fn adjacent(a: (int, int), b: (int, int)) -> bool {
    (a.0 == b.0 && (a.1 == b.1 + 1 || a.1 + 1 == b.1)) || (a.1 == b.1 && (a.0 == b.0 + 1 || a.0
        + 1 == b.0))
}

/// A sequence of in-range open cells, each sharing an edge with the next.
#[verifier::opaque]
pub open spec fn is_open_path(m: Maze, p: Seq<(int, int)>) -> bool {
    &&& p.len() >= 1
    &&& forall|i: int|
        0 <= i < p.len() ==> {
            let c = #[trigger] p[i];
            &&& 0 <= c.0 < m.width
            &&& 0 <= c.1 < m.height
            &&& !m.spec_cell(c.0, c.1)
        }
    &&& forall|i: int| 0 <= i < p.len() - 1 ==> adjacent(#[trigger] p[i], p[i + 1])
}

/// Cell `(x, y)` can be reached from the entrance cell `(1, 1)` through
/// open cells.
#[verifier::opaque]
pub open spec fn reachable(m: Maze, x: int, y: int) -> bool {
    exists|p: Seq<(int, int)>|
        is_open_path(m, p) && p.first() == (1int, 1int) && p.last() == (x, y)
}

/// A lattice point of the generator: both coordinates odd, inside the
/// border.
pub open spec fn lattice_pt(w: int, h: int, x: int, y: int) -> bool {
    &&& 1 <= x <= w - 2
    &&& 1 <= y <= h - 2
    &&& x % 2 == 1
    &&& y % 2 == 1
}

/// Every stride-two lattice neighbor of `(x, y)` that the generator would
/// offer is marked in the visited grid.
pub open spec fn neighbors_visited(v: Seq<Vec<bool>>, w: int, h: int, x: int, y: int) -> bool {
    &&& x > 2 ==> (v[y])@[x - 2]
    &&& x < w - 2 ==> (v[y])@[x + 2]
    &&& y > 2 ==> (v[y - 2])@[x]
    &&& y < h - 2 ==> (v[y + 2])@[x]
}

/// The entrance cell is reachable from itself once it is open.
proof fn lemma_reach_base(m: Maze)
    requires
        0 <= 1 < m.width,
        0 <= 1 < m.height,
        !m.spec_cell(1, 1),
    ensures
        reachable(m, 1, 1),
{
    reveal(is_open_path);
    reveal(reachable);
    let p = seq![(1int, 1int)];
    assert(is_open_path(m, p));
    assert(p.first() == (1int, 1int) && p.last() == (1int, 1int));
}

/// Opening cells never breaks reachability: a path through the old grid
/// is a path through the new one.
proof fn lemma_reach_monotone(m1: Maze, m2: Maze, x: int, y: int)
    requires
        m1.width == m2.width,
        m1.height == m2.height,
        forall|xi: int, yi: int|
            0 <= xi < m1.width && 0 <= yi < m1.height && !m1.spec_cell(xi, yi)
                ==> !#[trigger] m2.spec_cell(xi, yi),
        reachable(m1, x, y),
    ensures
        reachable(m2, x, y),
{
    reveal(is_open_path);
    reveal(reachable);
    let p = choose|p: Seq<(int, int)>|
        is_open_path(m1, p) && p.first() == (1int, 1int) && p.last() == (x, y);
    assert(is_open_path(m2, p));
}

/// A path extends by one step to an adjacent open cell.
proof fn lemma_reach_extend(m: Maze, x: int, y: int, nx: int, ny: int)
    requires
        reachable(m, x, y),
        adjacent((x, y), (nx, ny)),
        0 <= nx < m.width,
        0 <= ny < m.height,
        !m.spec_cell(nx, ny),
    ensures
        reachable(m, nx, ny),
{
    reveal(is_open_path);
    reveal(reachable);
    let p = choose|p: Seq<(int, int)>|
        is_open_path(m, p) && p.first() == (1int, 1int) && p.last() == (x, y);
    let q = p.push((nx, ny));
    assert(q.last() == (nx, ny));
    assert forall|i: int| 0 <= i < q.len() - 1 implies adjacent(#[trigger] q[i], q[i + 1]) by {
        if i < p.len() - 1 {
            assert(q[i] == p[i] && q[i + 1] == p[i + 1]);
        } else {
            assert(q[i] == p.last() && q[i + 1] == (nx, ny));
        }
    }
    assert(is_open_path(m, q));
}

/// A visited set of lattice points that contains the entrance and is
/// closed under the generator's stride-two neighbor relation contains
/// every lattice point.
proof fn lemma_all_lattice_visited(v: Seq<Vec<bool>>, w: int, h: int, x: int, y: int)
    requires
        5 <= w <= 999 && w % 2 == 1,
        5 <= h <= 999 && h % 2 == 1,
        v.len() == h,
        forall|yi: int| 0 <= yi < h ==> (#[trigger] v[yi])@.len() == w,
        (v[1])@[1],
        forall|a: int, b: int|
            lattice_pt(w, h, a, b) && #[trigger] (v[b])@[a] ==> neighbors_visited(v, w, h, a, b),
        lattice_pt(w, h, x, y),
    ensures
        (v[y])@[x],
    decreases x + y,
{
    if x > 1 {
        lemma_all_lattice_visited(v, w, h, x - 2, y);
        assert(neighbors_visited(v, w, h, x - 2, y));
        assert(x - 2 < w - 2);
    } else if y > 1 {
        lemma_all_lattice_visited(v, w, h, x, y - 2);
        assert(neighbors_visited(v, w, h, x, y - 2));
        assert(y - 2 < h - 2);
    }
}

/// After carving one corridor segment (opening the wall midpoint and the
/// chosen neighbor), every open cell of the new grid is still reachable.
proof fn lemma_carve_reach(m0: Maze, m2: Maze, cur: (int, int), mid: (int, int), nxt: (int, int))
    requires
        m0.width == m2.width,
        m0.height == m2.height,
        forall|xi: int, yi: int|
            0 <= xi < m0.width && 0 <= yi < m0.height && !m0.spec_cell(xi, yi)
                ==> !#[trigger] m2.spec_cell(xi, yi),
        forall|xi: int, yi: int|
            0 <= xi < m0.width && 0 <= yi < m0.height && !(xi == mid.0 && yi == mid.1) && !(xi
                == nxt.0 && yi == nxt.1) ==> #[trigger] m2.spec_cell(xi, yi) == m0.spec_cell(
                xi,
                yi,
            ),
        0 <= cur.0 < m0.width && 0 <= cur.1 < m0.height,
        0 <= mid.0 < m0.width && 0 <= mid.1 < m0.height,
        0 <= nxt.0 < m0.width && 0 <= nxt.1 < m0.height,
        !m0.spec_cell(cur.0, cur.1),
        !m2.spec_cell(mid.0, mid.1),
        !m2.spec_cell(nxt.0, nxt.1),
        adjacent(cur, mid),
        adjacent(mid, nxt),
        forall|xi: int, yi: int|
            0 <= xi < m0.width && 0 <= yi < m0.height && !#[trigger] m0.spec_cell(xi, yi)
                ==> reachable(m0, xi, yi),
    ensures
        forall|xi: int, yi: int|
            0 <= xi < m2.width && 0 <= yi < m2.height && !#[trigger] m2.spec_cell(xi, yi)
                ==> reachable(m2, xi, yi),
{
    assert(reachable(m0, cur.0, cur.1));
    lemma_reach_monotone(m0, m2, cur.0, cur.1);
    lemma_reach_extend(m2, cur.0, cur.1, mid.0, mid.1);
    lemma_reach_extend(m2, mid.0, mid.1, nxt.0, nxt.1);
    assert forall|xi: int, yi: int|
        0 <= xi < m2.width && 0 <= yi < m2.height && !#[trigger] m2.spec_cell(xi, yi)
            implies reachable(m2, xi, yi) by {
        if (xi == mid.0 && yi == mid.1) || (xi == nxt.0 && yi == nxt.1) {
        } else {
            assert(!m0.spec_cell(xi, yi));
            lemma_reach_monotone(m0, m2, xi, yi);
        }
    }
}

/// Marking a fresh lattice point visited and pushing it keeps the closure
/// invariant: every visited point off the stack has all neighbors visited.
proof fn lemma_closure_after_mark(
    v0: Seq<Vec<bool>>,
    v2: Seq<Vec<bool>>,
    stack0: Seq<(usize, usize)>,
    stack2: Seq<(usize, usize)>,
    w: int,
    h: int,
    nxt: (usize, usize),
)
    requires
        0 < w <= 999,
        0 < h <= 999,
        forall|a: int, b: int|
            0 <= a < w && 0 <= b < h && #[trigger] (v0[b])@[a] ==> (v2[b])@[a],
        forall|a: int, b: int|
            0 <= a < w && 0 <= b < h && #[trigger] (v2[b])@[a] && !(a == nxt.0 && b == nxt.1)
                ==> (v0[b])@[a],
        stack2 == stack0.push(nxt),
        forall|x: int, y: int|
            lattice_pt(w, h, x, y) && #[trigger] (v0[y])@[x] && !stack0.contains(
                (x as usize, y as usize),
            ) ==> neighbors_visited(v0, w, h, x, y),
    ensures
        forall|x: int, y: int|
            lattice_pt(w, h, x, y) && #[trigger] (v2[y])@[x] && !stack2.contains(
                (x as usize, y as usize),
            ) ==> neighbors_visited(v2, w, h, x, y),
{
    broadcast use vstd::seq_lib::lemma_seq_contains_after_push;

    assert forall|x: int, y: int|
        lattice_pt(w, h, x, y) && #[trigger] (v2[y])@[x] && !stack2.contains(
            (x as usize, y as usize),
        ) implies neighbors_visited(v2, w, h, x, y) by {
        assert(stack2.contains(nxt));
        assert((x as usize, y as usize) != nxt);
        assert((v0[y])@[x]);
        assert(!stack0.contains((x as usize, y as usize)));
        assert(neighbors_visited(v0, w, h, x, y));
    }
}

/// Popping a point whose stride-two neighbors are all visited keeps the
/// closure invariant.
proof fn lemma_closure_after_pop(
    v: Seq<Vec<bool>>,
    stack0: Seq<(usize, usize)>,
    stack2: Seq<(usize, usize)>,
    w: int,
    h: int,
    cur: (usize, usize),
)
    requires
        0 < w <= 999,
        0 < h <= 999,
        stack0.len() >= 1,
        stack2 == stack0.drop_last(),
        cur == stack0.last(),
        neighbors_visited(v, w, h, cur.0 as int, cur.1 as int),
        forall|x: int, y: int|
            lattice_pt(w, h, x, y) && #[trigger] (v[y])@[x] && !stack0.contains(
                (x as usize, y as usize),
            ) ==> neighbors_visited(v, w, h, x, y),
    ensures
        forall|x: int, y: int|
            lattice_pt(w, h, x, y) && #[trigger] (v[y])@[x] && !stack2.contains(
                (x as usize, y as usize),
            ) ==> neighbors_visited(v, w, h, x, y),
{
    assert forall|x: int, y: int|
        lattice_pt(w, h, x, y) && #[trigger] (v[y])@[x] && !stack2.contains(
            (x as usize, y as usize),
        ) implies neighbors_visited(v, w, h, x, y) by {
        let p = (x as usize, y as usize);
        if p == cur {
            assert(x == cur.0 as int && y == cur.1 as int);
        } else {
            if stack0.contains(p) {
                let j = choose|j: int| 0 <= j < stack0.len() && stack0[j] == p;
                assert(j < stack0.len() - 1);
                assert(stack2[j] == p);
                assert(false);
            }
        }
    }
}

/// The exact neighbor list the generator is offered at `pos`: of the four
/// stride-two lattice neighbors, those inside the interior margin and not
/// yet visited, in the fixed order left, right, up, down. At most four
/// entries, each listed once.
pub open spec fn spec_unvisited_neighbors(m: Maze, pos: (usize, usize), v: Seq<Vec<bool>>) -> Seq<
    (usize, usize),
> {
    let s1 = if pos.0 > 2 && !(v[pos.1 as int])@[pos.0 - 2] {
        seq![(((pos.0 - 2) as usize), pos.1)]
    } else {
        Seq::empty()
    };
    let s2 = if pos.0 < m.width - 2 && !(v[pos.1 as int])@[pos.0 + 2] {
        s1.push((((pos.0 + 2) as usize), pos.1))
    } else {
        s1
    };
    let s3 = if pos.1 > 2 && !(v[pos.1 - 2])@[pos.0 as int] {
        s2.push((pos.0, ((pos.1 - 2) as usize)))
    } else {
        s2
    };
    if pos.1 < m.height - 2 && !(v[pos.1 + 2])@[pos.0 as int] {
        s3.push((pos.0, ((pos.1 + 2) as usize)))
    } else {
        s3
    }
}

/// The grid cell containing a fixed-point coordinate: truncation, with
/// negative coordinates saturating to cell 0 (they land in the border wall
/// either way).
pub open spec fn spec_cell_index(v: int) -> int {
    if v < 0 {
        0
    } else {
        v / (FP as int)
    }
}

/// Number of `false` entries in one row of the visited grid.
pub open spec fn unvisited_in_row(row: Seq<bool>) -> nat
    decreases row.len(),
{
    if row.len() == 0 {
        0
    } else {
        unvisited_in_row(row.drop_last()) + if row.last() { 0nat } else { 1nat }
    }
}

/// Number of `false` entries in the whole visited grid.
pub open spec fn unvisited_in_grid(g: Seq<Vec<bool>>) -> nat
    decreases g.len(),
{
    if g.len() == 0 {
        0
    } else {
        unvisited_in_grid(g.drop_last()) + unvisited_in_row(g.last()@)
    }
}

proof fn lemma_row_mark(row: Seq<bool>, i: int)
    requires
        0 <= i < row.len(),
        !row[i],
    ensures
        unvisited_in_row(row.update(i, true)) + 1 == unvisited_in_row(row),
    decreases row.len(),
{
    let upd = row.update(i, true);
    if i == row.len() - 1 {
        assert(upd.drop_last() =~= row.drop_last());
        assert(upd.last());
    } else {
        assert(upd.drop_last() =~= row.drop_last().update(i, true));
        lemma_row_mark(row.drop_last(), i);
        assert(upd.last() == row.last());
    }
}

proof fn lemma_grid_mark(g: Seq<Vec<bool>>, y: int, row2: Vec<bool>)
    requires
        0 <= y < g.len(),
        unvisited_in_row(row2@) + 1 == unvisited_in_row(g[y]@),
    ensures
        unvisited_in_grid(g.update(y, row2)) + 1 == unvisited_in_grid(g),
    decreases g.len(),
{
    let upd = g.update(y, row2);
    if y == g.len() - 1 {
        assert(upd.drop_last() =~= g.drop_last());
        assert(upd.last() == row2);
    } else {
        assert(upd.drop_last() =~= g.drop_last().update(y, row2));
        lemma_grid_mark(g.drop_last(), y, row2);
        assert(upd.last() == g.last());
    }
}

/// Relies on `std::time::SystemTime::now` for a nondeterministic seed;
/// nothing is assumed of the returned value.
#[verifier::external_body]
fn clock_seed() -> u64 {
    std::time::SystemTime::now()
        .duration_since(std::time::UNIX_EPOCH)
        .map(|d| d.as_nanos() as u64)
        .unwrap_or(0)
}

impl Maze {
    /// Opens the cell at `(x, y)`; the rest of the grid is unchanged.
    fn set_open(&mut self, x: usize, y: usize)
        requires
            old(self).wf(),
            0 < x < old(self).width - 1,
            0 < y < old(self).height - 1,
        ensures
            final(self).wf(),
            final(self).width == old(self).width,
            final(self).height == old(self).height,
            !final(self).spec_cell(x as int, y as int),
            forall|xi: int, yi: int|
                0 <= xi < final(self).width && 0 <= yi < final(self).height && !(xi == x && yi == y)
                    ==> #[trigger] final(self).spec_cell(xi, yi) == old(self).spec_cell(xi, yi),
    {
        self.cells[y][x] = false;
    }

    /// The unvisited lattice neighbors of `pos` at stride two, confined to
    /// the interior of the grid.
    fn get_unvisited_neighbors(&self, pos: (usize, usize), visited: &Vec<Vec<bool>>) -> (r: Vec<
        (usize, usize),
    >)
        requires
            self.wf(),
            visited@.len() == self.height,
            forall|y: int| 0 <= y < self.height ==> (#[trigger] visited@[y])@.len() == self.width,
            0 < pos.0 < self.width - 1,
            0 < pos.1 < self.height - 1,
            pos.0 % 2 == 1,
            pos.1 % 2 == 1,
        ensures
            forall|i: int| 0 <= i < r@.len() ==> {
                let p = #[trigger] r@[i];
                &&& (p.0 + 2 == pos.0 || p.0 == pos.0 + 2 || p.0 == pos.0) && (p.1 + 2 == pos.1
                    || p.1 == pos.1 + 2 || p.1 == pos.1)
                &&& (p.0 == pos.0) != (p.1 == pos.1)
                &&& 0 < p.0 < self.width - 1
                &&& 0 < p.1 < self.height - 1
                &&& !visited@[p.1 as int]@[p.0 as int]
            },
            pos.0 > 2 && !visited@[pos.1 as int]@[pos.0 - 2] ==> r@.contains(
                ((pos.0 - 2) as usize, pos.1),
            ),
            pos.0 < self.width - 2 && !visited@[pos.1 as int]@[pos.0 + 2] ==> r@.contains(
                ((pos.0 + 2) as usize, pos.1),
            ),
            pos.1 > 2 && !visited@[pos.1 - 2]@[pos.0 as int] ==> r@.contains(
                (pos.0, (pos.1 - 2) as usize),
            ),
            pos.1 < self.height - 2 && !visited@[pos.1 + 2]@[pos.0 as int] ==> r@.contains(
                (pos.0, (pos.1 + 2) as usize),
            ),
            r@ == spec_unvisited_neighbors(*self, pos, visited@),
            r@.len() <= 4,
    {
        let mut neighbors: Vec<(usize, usize)> = Vec::new();
        let (x, y) = pos;

        if x > 2 && !visited[y][x - 2] {
            neighbors.push((x - 2, y));
        }
        if x < self.width - 2 && !visited[y][x + 2] {
            neighbors.push((x + 2, y));
        }
        if y > 2 && !visited[y - 2][x] {
            neighbors.push((x, y - 2));
        }
        if y < self.height - 2 && !visited[y + 2][x] {
            neighbors.push((x, y + 2));
        }

        proof {
            assert(neighbors@ =~= spec_unvisited_neighbors(*self, pos, visited@));
        }
        neighbors
    }

    /// Opens the cell midway between two lattice points two cells apart.
    fn remove_wall_between(&mut self, a: (usize, usize), b: (usize, usize))
        requires
            old(self).wf(),
            0 < a.0 < old(self).width - 1,
            0 < a.1 < old(self).height - 1,
            0 < b.0 < old(self).width - 1,
            0 < b.1 < old(self).height - 1,
        ensures
            final(self).wf(),
            final(self).width == old(self).width,
            final(self).height == old(self).height,
            !final(self).spec_cell((a.0 + b.0) as int / 2, (a.1 + b.1) as int / 2),
            forall|xi: int, yi: int|
                0 <= xi < final(self).width && 0 <= yi < final(self).height && !(xi == (a.0 + b.0) as int / 2
                    && yi == (a.1 + b.1) as int / 2)
                    ==> #[trigger] final(self).spec_cell(xi, yi) == old(self).spec_cell(xi, yi),
    {
        let (ax, ay) = a;
        let (bx, by) = b;
        let mid_x = (ax + bx) / 2;
        let mid_y = (ay + by) / 2;
        self.set_open(mid_x, mid_y);
    }

    #[verifier::rlimit(100)]
    fn generate(&mut self, seed: u64)
        requires
            old(self).wf(),
            forall|x: int, y: int|
                0 <= x < old(self).width && 0 <= y < old(self).height
                    ==> #[trigger] old(self).spec_cell(x, y),
        ensures
            final(self).wf(),
            final(self).width == old(self).width,
            final(self).height == old(self).height,
            final(self).border_walled(),
            !final(self).spec_cell(1, 1),
            !final(self).spec_cell(final(self).width - 2, final(self).height - 2),
            forall|x: int, y: int|
                0 <= x < final(self).width && 0 <= y < final(self).height
                    && !#[trigger] final(self).spec_cell(x, y) ==> reachable(*final(self), x, y),
            forall|x: int, y: int|
                lattice_pt(final(self).width as int, final(self).height as int, x, y)
                    ==> !#[trigger] final(self).spec_cell(x, y),
            forall|x: int, y: int|
                0 <= x < final(self).width && 0 <= y < final(self).height && x % 2 == 0 && y % 2
                    == 0 ==> #[trigger] final(self).spec_cell(x, y),
    {
        let width = self.width;
        let height = self.height;
        let mut stack: Vec<(usize, usize)> = Vec::new();
        let mut visited: Vec<Vec<bool>> = Vec::new();
        let mut i: usize = 0;
        while i < height
            invariant
                visited@.len() == i,
                i <= height,
                forall|y: int| 0 <= y < i ==> (#[trigger] visited@[y])@.len() == width,
                forall|y: int, x: int| 0 <= y < i && 0 <= x < width ==> !#[trigger] (visited@[y])@[x],
            decreases height - i,
        {
            let row: Vec<bool> = vec![false; width];
            visited.push(row);
            i = i + 1;
        }

        self.set_open(1, 1);
        visited[1][1] = true;
        stack.push((1, 1));

        proof {
            lemma_reach_base(*self);
            assert(stack@[0] == (1usize, 1usize));
            assert(stack@.contains((1usize, 1usize)));
            assert forall|x: int, y: int|
                0 <= x < width && 0 <= y < height && #[trigger] (visited@[y])@[x]
                    implies x == 1 && y == 1 by {}
        }

        let mut rng_seed: u64 = seed;

        while stack.len() > 0
            invariant
                self.wf(),
                self.width == width,
                self.height == height,
                visited@.len() == height,
                forall|y: int| 0 <= y < height ==> (#[trigger] visited@[y])@.len() == width,
                forall|i: int| 0 <= i < stack@.len() ==> {
                    let p = #[trigger] stack@[i];
                    &&& 0 < p.0 < width - 1
                    &&& 0 < p.1 < height - 1
                    &&& p.0 % 2 == 1
                    &&& p.1 % 2 == 1
                    &&& (visited@[p.1 as int])@[p.0 as int]
                },
                self.border_walled(),
                !self.spec_cell(1, 1),
                (visited@[1])@[1],
                forall|x: int, y: int|
                    0 <= x < width && 0 <= y < height && #[trigger] (visited@[y])@[x]
                        ==> lattice_pt(width as int, height as int, x, y) && !self.spec_cell(x, y),
                forall|x: int, y: int|
                    0 <= x < width && 0 <= y < height && !#[trigger] self.spec_cell(x, y)
                        ==> reachable(*self, x, y),
                forall|x: int, y: int|
                    0 <= x < width && 0 <= y < height && x % 2 == 0 && y % 2 == 0
                        ==> #[trigger] self.spec_cell(x, y),
                forall|x: int, y: int|
                    lattice_pt(width as int, height as int, x, y) && #[trigger] (visited@[y])@[x]
                        && !stack@.contains((x as usize, y as usize)) ==> neighbors_visited(
                        visited@,
                        width as int,
                        height as int,
                        x,
                        y,
                    ),
            decreases unvisited_in_grid(visited@), stack@.len(),
        {
            let ghost pre_count = unvisited_in_grid(visited@);
            let current = stack[stack.len() - 1];
            let neighbors = self.get_unvisited_neighbors(current, &visited);

            if neighbors.len() > 0 {
                let ghost m0 = *self;
                let ghost v0 = visited@;
                let ghost stack0 = stack@;
                rng_seed = rng_seed.wrapping_mul(1103515245).wrapping_add(12345);
                let idx = (rng_seed % (neighbors.len() as u64)) as usize;
                let next = neighbors[idx];
                self.remove_wall_between(current, next);
                self.set_open(next.0, next.1);
                proof {
                    lemma_row_mark(visited@[next.1 as int]@, next.0 as int);
                }
                let ghost pre_rows = visited@;
                visited[next.1][next.0] = true;
                proof {
                    lemma_grid_mark(pre_rows, next.1 as int, visited@[next.1 as int]);
                }
                stack.push(next);
                assert(unvisited_in_grid(visited@) < pre_count);
                proof {
                    let w = width as int;
                    let h = height as int;
                    let m2 = *self;
                    let cur = (current.0 as int, current.1 as int);
                    let nxt = (next.0 as int, next.1 as int);
                    let mid = ((cur.0 + nxt.0) / 2, (cur.1 + nxt.1) / 2);
                    assert(!m0.spec_cell(cur.0, cur.1));
                    assert(adjacent((cur.0, cur.1), mid) && adjacent(mid, nxt));
                    assert(!m2.spec_cell(mid.0, mid.1) && !m2.spec_cell(nxt.0, nxt.1));
                    lemma_carve_reach(m0, m2, (cur.0, cur.1), mid, nxt);
                    lemma_closure_after_mark(v0, visited@, stack0, stack@, w, h, next);
                    assert forall|xi: int, yi: int|
                        0 <= xi < w && 0 <= yi < h && xi % 2 == 0 && yi % 2 == 0
                            implies #[trigger] m2.spec_cell(xi, yi) by {
                        assert(mid.0 % 2 == 1 || mid.1 % 2 == 1);
                        assert(nxt.0 % 2 == 1 && nxt.1 % 2 == 1);
                        assert(m0.spec_cell(xi, yi));
                    }
                }
            } else {
                let ghost stack0 = stack@;
                let _ = stack.pop();
                proof {
                    let w = width as int;
                    let h = height as int;
                    // no unvisited neighbor was offered, so all of them
                    // are visited
                    assert(neighbors_visited(
                        visited@,
                        w,
                        h,
                        current.0 as int,
                        current.1 as int,
                    ));
                    lemma_closure_after_pop(visited@, stack0, stack@, w, h, current);
                }
            }
        }

        proof {
            let w = width as int;
            let h = height as int;
            assert forall|a: int, b: int|
                lattice_pt(w, h, a, b) && #[trigger] (visited@[b])@[a]
                    implies neighbors_visited(visited@, w, h, a, b) by {
                assert(!stack@.contains((a as usize, b as usize)));
            }
            lemma_all_lattice_visited(visited@, w, h, w - 2, h - 2);
            assert(!self.spec_cell(w - 2, h - 2));
            assert forall|x: int, y: int| lattice_pt(w, h, x, y) implies !self.spec_cell(x, y) by {
                lemma_all_lattice_visited(visited@, w, h, x, y);
            }
        }
        let ghost m_pre = *self;
        self.set_open(width - 2, height - 2);
        proof {
            let w = width as int;
            let h = height as int;
            assert forall|xi: int, yi: int|
                0 <= xi < w && 0 <= yi < h && !m_pre.spec_cell(xi, yi)
                    implies !#[trigger] self.spec_cell(xi, yi) by {}
            assert forall|xi: int, yi: int|
                0 <= xi < w && 0 <= yi < h && !#[trigger] self.spec_cell(xi, yi)
                    implies reachable(*self, xi, yi) by {
                assert(!m_pre.spec_cell(xi, yi));
                lemma_reach_monotone(m_pre, *self, xi, yi);
            }
        }
    }

    /// Builds a maze of the given odd dimensions: all walls, then corridors
    /// carved by recursive backtracking from the entrance cell `(1, 1)`,
    /// with the exit cell `(width - 2, height - 2)` forced open.
    pub fn new(width: usize, height: usize) -> (m: Maze)
        requires
            5 <= width <= 999,
            5 <= height <= 999,
            width % 2 == 1,
            height % 2 == 1,
        ensures
            m.wf(),
            m.width == width,
            m.height == height,
            m.border_walled(),
            !m.spec_cell(1, 1),
            !m.spec_cell(width - 2, height - 2),
            forall|x: int, y: int|
                0 <= x < width && 0 <= y < height && !#[trigger] m.spec_cell(x, y)
                    ==> reachable(m, x, y),
            reachable(m, width - 2, height - 2),
            forall|x: int, y: int|
                lattice_pt(width as int, height as int, x, y) ==> !#[trigger] m.spec_cell(x, y),
            forall|x: int, y: int|
                0 <= x < width && 0 <= y < height && x % 2 == 0 && y % 2 == 0
                    ==> #[trigger] m.spec_cell(x, y),
    {
        let mut cells: Vec<Vec<bool>> = Vec::new();
        let mut i: usize = 0;
        while i < height
            invariant
                cells@.len() == i,
                i <= height,
                forall|y: int| 0 <= y < i ==> (#[trigger] cells@[y])@.len() == width,
                forall|y: int, x: int|
                    0 <= y < i && 0 <= x < width ==> #[trigger] (cells@[y])@[x],
            decreases height - i,
        {
            let row: Vec<bool> = vec![true; width];
            cells.push(row);
            i = i + 1;
        }
        let mut maze = Maze { width, height, cells };
        let seed = clock_seed();
        maze.generate(seed);
        maze
    }

    /// Wall query at integer cell coordinates; out-of-range coordinates
    /// count as walls.
    pub fn is_wall(&self, x: usize, y: usize) -> (r: bool)
        requires
            self.wf(),
        ensures
            r == self.spec_is_wall(x as int, y as int),
    {
        if x >= self.width || y >= self.height {
            return true;
        }
        self.cells[y][x]
    }

    /// Wall query at fixed-point coordinates: truncates to the containing
    /// cell (negative coordinates saturate to cell 0) and answers as
    /// [`Maze::is_wall`] does.
    pub fn get_cell(&self, x: i64, y: i64) -> (r: bool)
        requires
            self.wf(),
        ensures
            r == self.spec_is_wall(spec_cell_index(x as int), spec_cell_index(y as int)),
    {
        let ix = if x < 0 {
            0
        } else {
            x / FP
        };
        let iy = if y < 0 {
            0
        } else {
            y / FP
        };
        let uix: usize = if ix >= self.width as i64 { self.width } else { ix as usize };
        let uiy: usize = if iy >= self.height as i64 { self.height } else { iy as usize };
        self.is_wall(uix, uiy)
    }
}

} // verus!

use vstd::prelude::*;

use crate::cell::Cell;

use super::grid::{cell_index, lemma_cell_index, lemma_cell_index_injective, PathGrid};

verus! {

/// The `d`-th neighbour of `c`, in the order the search expands them:
/// +x, -x, +z, -z.
pub open spec fn neighbor_at(c: Cell, d: int) -> Cell {
    if d == 0 {
        Cell { x: (c.x + 1) as i32, z: c.z }
    } else if d == 1 {
        Cell { x: (c.x - 1) as i32, z: c.z }
    } else if d == 2 {
        Cell { x: c.x, z: (c.z + 1) as i32 }
    } else {
        Cell { x: c.x, z: (c.z - 1) as i32 }
    }
}

/// Two cells share an edge.
pub open spec fn adjacent(a: Cell, b: Cell) -> bool {
    ||| a.z == b.z && (a.x - b.x == 1 || b.x - a.x == 1)
    ||| a.x == b.x && (a.z - b.z == 1 || b.z - a.z == 1)
}

/// A cell a path may step onto: inside the grid and not blocked.
pub open spec fn passable(grid: PathGrid, c: Cell) -> bool {
    !grid.spec_blocked(c.x as int, c.z as int)
}

/// `p` walks from `start` to `goal` in single orthogonal steps, and every
/// cell it steps onto is passable.
pub open spec fn is_path(grid: PathGrid, p: Seq<Cell>, start: Cell, goal: Cell) -> bool {
    &&& p.len() > 0
    &&& p[0] == start
    &&& p.last() == goal
    &&& forall|i: int|
        1 <= i < p.len() ==> #[trigger] adjacent(p[i - 1], p[i]) && passable(grid, p[i])
}

/// Some path leads from `start` to `goal`.
pub open spec fn reachable(grid: PathGrid, start: Cell, goal: Cell) -> bool {
    exists|p: Seq<Cell>| is_path(grid, p, start, goal)
}

/// When the search finds a route: both endpoints lie in the grid, the goal
/// is not blocked, and the goal can be reached.
pub open spec fn route_exists(grid: PathGrid, start: Cell, goal: Cell) -> bool {
    &&& grid.spec_in_bounds(start.x as int, start.z as int)
    &&& grid.spec_in_bounds(goal.x as int, goal.z as int)
    &&& !grid.spec_blocked(goal.x as int, goal.z as int)
    &&& reachable(grid, start, goal)
}

#[derive(Debug, Clone, Copy)]
struct FrontierNode {
    pos: Cell,
    f_score: i64,
    g_score: i32,
}

/// The frontier pops the entry with the lowest `f`, then the lowest `g`,
/// then the greatest position.
spec fn ranks_before(a: FrontierNode, b: FrontierNode) -> bool {
    ||| a.f_score < b.f_score
    ||| a.f_score == b.f_score && a.g_score < b.g_score
    ||| a.f_score == b.f_score && a.g_score == b.g_score && a.pos.x > b.pos.x
    ||| a.f_score == b.f_score && a.g_score == b.g_score && a.pos.x == b.pos.x && a.pos.z
        > b.pos.z
}

fn node_ranks_before(a: &FrontierNode, b: &FrontierNode) -> (r: bool)
    ensures
        r == ranks_before(*a, *b),
{
    if a.f_score != b.f_score {
        a.f_score < b.f_score
    } else if a.g_score != b.g_score {
        a.g_score < b.g_score
    } else if a.pos.x != b.pos.x {
        a.pos.x > b.pos.x
    } else {
        a.pos.z > b.pos.z
    }
}

/// The entry the frontier pops among its first `n`: the first one that no
/// entry ranks before.
spec fn min_index(open: Seq<FrontierNode>, n: int) -> int
    decreases n,
{
    if n <= 1 {
        0
    } else {
        let k = min_index(open, n - 1);
        if ranks_before(open[n - 1], open[k]) {
            n - 1
        } else {
            k
        }
    }
}

fn best_index(open: &Vec<FrontierNode>) -> (k: usize)
    requires
        open.len() > 0,
    ensures
        k < open.len(),
        k == min_index(open@, open@.len() as int),
        forall|j: int| 0 <= j < open.len() ==> !ranks_before(#[trigger] open@[j], open@[k as int]),
{
    let mut k: usize = 0;
    let mut i: usize = 1;
    while i < open.len()
        invariant
            k < i <= open.len(),
            k == min_index(open@, i as int),
            forall|j: int| 0 <= j < i ==> !ranks_before(#[trigger] open@[j], open@[k as int]),
        decreases open.len() - i,
    {
        if node_ranks_before(&open[i], &open[k]) {
            k = i;
        }
        i += 1;
    }
    k
}

spec fn spec_heuristic(a: Cell, b: Cell) -> int {
    let dx = a.x - b.x;
    let dz = a.z - b.z;
    (if dx < 0 {
        -dx
    } else {
        dx
    }) + (if dz < 0 {
        -dz
    } else {
        dz
    })
}

/// Manhattan distance between two cells.
fn heuristic(a: Cell, b: Cell) -> (h: i64)
    ensures
        h == spec_heuristic(a, b),
{
    let dx = a.x as i64 - b.x as i64;
    let dz = a.z as i64 - b.z as i64;
    let ax = if dx < 0 {
        -dx
    } else {
        dx
    };
    let az = if dz < 0 {
        -dz
    } else {
        dz
    };
    ax + az
}

fn neighbors(pos: Cell) -> (r: [Cell; 4])
    requires
        pos.x < i32::MAX,
        pos.x > i32::MIN,
        pos.z < i32::MAX,
        pos.z > i32::MIN,
    ensures
        forall|d: int| 0 <= d < 4 ==> #[trigger] r@[d] == neighbor_at(pos, d),
{
    [
        Cell::new(pos.x + 1, pos.z),
        Cell::new(pos.x - 1, pos.z),
        Cell::new(pos.x, pos.z + 1),
        Cell::new(pos.x, pos.z - 1),
    ]
}

spec fn idx(grid: PathGrid, c: Cell) -> int {
    cell_index(grid.spec_width(), c.x as int, c.z as int)
}

spec fn in_grid(grid: PathGrid, c: Cell) -> bool {
    grid.spec_in_bounds(c.x as int, c.z as int)
}

/// The search has assigned `c` a cost.
spec fn disc(grid: PathGrid, g: Seq<i32>, c: Cell) -> bool {
    g[idx(grid, c)] != i32::MAX
}

/// The frontier holds an entry for `c` with cost `cost`.
spec fn in_open(open: Seq<FrontierNode>, c: Cell, cost: i32) -> bool {
    exists|j: int| 0 <= j < open.len() && #[trigger] open[j].pos == c && open[j].g_score == cost
}

/// Every passable neighbour of `c` has been assigned a cost at most one
/// more than that of `c`.
spec fn expanded(grid: PathGrid, g: Seq<i32>, c: Cell) -> bool {
    forall|d: int|
        0 <= d < 4 && #[trigger] in_grid(grid, neighbor_at(c, d)) && passable(
            grid,
            neighbor_at(c, d),
        ) ==> disc(grid, g, neighbor_at(c, d)) && g[idx(grid, neighbor_at(c, d))] <= g[idx(grid, c)]
            + 1
}

/// Every frontier entry's `f` is its cost plus the Manhattan distance to
/// the goal.
spec fn f_ok(open: Seq<FrontierNode>, goal: Cell) -> bool {
    forall|j: int|
        0 <= j < open.len() ==> #[trigger] open[j].f_score == open[j].g_score + spec_heuristic(
            open[j].pos,
            goal,
        )
}

/// Some frontier entry has `f` at most `bound`.
spec fn entry_within(open: Seq<FrontierNode>, bound: int) -> bool {
    exists|j: int| 0 <= j < open.len() && #[trigger] open[j].f_score <= bound
}

/// Number of cells that have been assigned a cost.
spec fn disc_count(g: Seq<i32>) -> int
    decreases g.len(),
{
    if g.len() == 0 {
        0
    } else {
        disc_count(g.drop_last()) + if g.last() != i32::MAX {
            1int
        } else {
            0int
        }
    }
}

/// Sum of all cost slots; with the frontier length it bounds the work left.
spec fn g_sum(g: Seq<i32>) -> int
    decreases g.len(),
{
    if g.len() == 0 {
        0
    } else {
        g_sum(g.drop_last()) + g.last()
    }
}

/// The chain facts of one costed cell other than the start.
spec fn chain_ok(grid: PathGrid, g: Seq<i32>, came: Seq<Option<Cell>>, c: Cell) -> bool {
    let p = came[idx(grid, c)];
    &&& p is Some
    &&& adjacent(p->0, c)
    &&& in_grid(grid, p->0)
    &&& disc(grid, g, p->0)
    &&& g[idx(grid, p->0)] < g[idx(grid, c)]
    &&& passable(grid, c)
}

/// Cost table and predecessor links: costs are non-negative and below the
/// number of costed cells, and every costed cell other than the start links
/// to an adjacent costed cell of smaller cost.
#[verifier::opaque]
spec fn table_ok(grid: PathGrid, g: Seq<i32>, came: Seq<Option<Cell>>, start: Cell) -> bool {
    &&& g.len() == grid.spec_width() * grid.spec_height()
    &&& came.len() == g.len()
    &&& g[idx(grid, start)] == 0
    &&& came[idx(grid, start)] is None
    &&& forall|j: int| 0 <= j < g.len() ==> #[trigger] g[j] >= 0
    &&& forall|j: int| 0 <= j < g.len() && g[j] != i32::MAX ==> #[trigger] g[j] < disc_count(g)
    &&& forall|c: Cell| #[trigger]
        in_grid(grid, c) && disc(grid, g, c) && c != start ==> chain_ok(grid, g, came, c)
}

/// Frontier entries name in-grid cells with a cost at least the table's.
#[verifier::opaque]
spec fn open_ok(grid: PathGrid, g: Seq<i32>, open: Seq<FrontierNode>) -> bool {
    forall|j: int|
        0 <= j < open.len() ==> {
            &&& in_grid(grid, #[trigger] open[j].pos)
            &&& 0 <= open[j].g_score < i32::MAX
            &&& g[idx(grid, open[j].pos)] <= open[j].g_score
            &&& open[j].g_score < disc_count(g)
        }
}

spec fn settled(grid: PathGrid, g: Seq<i32>, open: Seq<FrontierNode>, c: Cell) -> bool {
    in_open(open, c, g[idx(grid, c)]) || expanded(grid, g, c)
}

proof fn lemma_g_sum_update(g: Seq<i32>, i: int, v: i32)
    requires
        0 <= i < g.len(),
    ensures
        g_sum(g.update(i, v)) == g_sum(g) - g[i] + v,
    decreases g.len(),
{
    let h = g.update(i, v);
    if i == g.len() - 1 {
        assert(h.drop_last() =~= g.drop_last());
    } else {
        lemma_g_sum_update(g.drop_last(), i, v);
        assert(h.drop_last() =~= g.drop_last().update(i, v));
    }
}

proof fn lemma_g_sum_nonneg(g: Seq<i32>)
    requires
        forall|i: int| 0 <= i < g.len() ==> #[trigger] g[i] >= 0,
    ensures
        g_sum(g) >= 0,
    decreases g.len(),
{
    if g.len() > 0 {
        lemma_g_sum_nonneg(g.drop_last());
    }
}

proof fn lemma_disc_count_update(g: Seq<i32>, i: int, v: i32)
    requires
        0 <= i < g.len(),
    ensures
        disc_count(g.update(i, v)) == disc_count(g) - (if g[i] != i32::MAX {
            1int
        } else {
            0int
        }) + (if v != i32::MAX {
            1int
        } else {
            0int
        }),
    decreases g.len(),
{
    let h = g.update(i, v);
    if i == g.len() - 1 {
        assert(h.drop_last() =~= g.drop_last());
    } else {
        lemma_disc_count_update(g.drop_last(), i, v);
        assert(h.drop_last() =~= g.drop_last().update(i, v));
    }
}

/// The count never exceeds the table size, and falls short of it while some
/// slot is still uncosted.
proof fn lemma_disc_count_bound(g: Seq<i32>, i: int)
    ensures
        0 <= disc_count(g) <= g.len(),
        0 <= i < g.len() && g[i] == i32::MAX ==> disc_count(g) < g.len(),
    decreases g.len(),
{
    if g.len() > 0 {
        lemma_disc_count_bound(g.drop_last(), i);
    }
}

proof fn lemma_index_facts(grid: PathGrid, c: Cell)
    requires
        in_grid(grid, c),
    ensures
        0 <= idx(grid, c) < grid.spec_width() * grid.spec_height(),
        0 <= c.x < grid.spec_width(),
        0 <= c.z < grid.spec_height(),
        c.z * grid.spec_width() <= idx(grid, c),
        c.x < i32::MAX,
        c.x > i32::MIN,
        c.z < i32::MAX,
        c.z > i32::MIN,
{
    grid.lemma_in_bounds_within(c.x as int, c.z as int);
    lemma_cell_index(grid.spec_width(), grid.spec_height(), c.x as int, c.z as int);
}

proof fn lemma_idx_injective(grid: PathGrid, a: Cell, b: Cell)
    requires
        in_grid(grid, a),
        in_grid(grid, b),
        idx(grid, a) == idx(grid, b),
    ensures
        a == b,
{
    grid.lemma_in_bounds_within(a.x as int, a.z as int);
    grid.lemma_in_bounds_within(b.x as int, b.z as int);
    lemma_cell_index_injective(
        grid.spec_width(),
        a.x as int,
        a.z as int,
        b.x as int,
        b.z as int,
    );
}

proof fn lemma_neighbor_adjacent(c: Cell, d: int)
    requires
        0 <= d < 4,
        c.x < i32::MAX,
        c.x > i32::MIN,
        c.z < i32::MAX,
        c.z > i32::MIN,
    ensures
        adjacent(c, neighbor_at(c, d)),
        adjacent(neighbor_at(c, d), c),
        neighbor_at(c, d) != c,
{
}

/// Every cell adjacent to `c` is one of its four neighbours.
proof fn lemma_adjacent_is_neighbor(c: Cell, n: Cell)
    requires
        adjacent(c, n),
    ensures
        exists|d: int| 0 <= d < 4 && #[trigger] neighbor_at(c, d) == n,
{
    if n.z == c.z && n.x - c.x == 1 {
        assert(neighbor_at(c, 0) == n);
    } else if n.z == c.z && c.x - n.x == 1 {
        assert(neighbor_at(c, 1) == n);
    } else if n.x == c.x && n.z - c.z == 1 {
        assert(neighbor_at(c, 2) == n);
    } else {
        assert(neighbor_at(c, 3) == n);
    }
}

/// If every costed cell has been expanded, every cell of a path out of a
/// costed start has been costed.
proof fn lemma_path_costed(
    grid: PathGrid,
    g: Seq<i32>,
    p: Seq<Cell>,
    start: Cell,
    goal: Cell,
    k: int,
)
    requires
        is_path(grid, p, start, goal),
        in_grid(grid, start),
        disc(grid, g, start),
        forall|c: Cell| #[trigger] in_grid(grid, c) && disc(grid, g, c) ==> expanded(grid, g, c),
        0 <= k < p.len(),
    ensures
        in_grid(grid, p[k]),
        disc(grid, g, p[k]),
    decreases k,
{
    if k > 0 {
        lemma_path_costed(grid, g, p, start, goal, k - 1);
        assert(adjacent(p[k - 1], p[k]) && passable(grid, p[k]));
        lemma_adjacent_is_neighbor(p[k - 1], p[k]);
        let d = choose|d: int| 0 <= d < 4 && #[trigger] neighbor_at(p[k - 1], d) == p[k];
        assert(in_grid(grid, neighbor_at(p[k - 1], d)));
        assert(expanded(grid, g, p[k - 1]));
    }
}

/// Along a path, the Manhattan distance from a cell to the last cell is at
/// most the number of steps left.
proof fn lemma_manhattan_steps(q: Seq<Cell>, i: int)
    requires
        0 <= i < q.len(),
        forall|m: int| 1 <= m < q.len() ==> #[trigger] adjacent(q[m - 1], q[m]),
    ensures
        spec_heuristic(q[i], q.last()) <= q.len() - 1 - i,
    decreases q.len() - i,
{
    if i < q.len() - 1 {
        lemma_manhattan_steps(q, i + 1);
        assert(adjacent(q[(i + 1) - 1], q[i + 1]));
        assert(q[(i + 1) - 1] == q[i]);
    }
}

/// Consecutive cells of a path are adjacent.
proof fn lemma_path_steps(grid: PathGrid, q: Seq<Cell>, start: Cell, goal: Cell)
    requires
        is_path(grid, q, start, goal),
    ensures
        forall|m: int| 1 <= m < q.len() ==> #[trigger] adjacent(q[m - 1], q[m]),
{
}

/// Step `m` of a path is adjacent to the cell before it and passable.
proof fn lemma_path_step(grid: PathGrid, q: Seq<Cell>, start: Cell, goal: Cell, m: int)
    requires
        is_path(grid, q, start, goal),
        1 <= m < q.len(),
    ensures
        adjacent(q[m - 1], q[m]),
        passable(grid, q[m]),
{
    assert(adjacent(q[m - 1], q[m]));
}

/// When cell `i` of a path to the goal has a cost of at most `i`, some
/// frontier entry has `f` no greater than the path's number of steps.
proof fn lemma_frontier_bound(
    grid: PathGrid,
    g: Seq<i32>,
    open: Seq<FrontierNode>,
    q: Seq<Cell>,
    start: Cell,
    goal: Cell,
    i: int,
)
    requires
        is_path(grid, q, start, goal),
        g.len() == grid.spec_width() * grid.spec_height(),
        0 <= i < q.len(),
        in_grid(grid, q[i]),
        disc(grid, g, q[i]),
        g[idx(grid, q[i])] <= i,
        forall|c: Cell| #[trigger] in_grid(grid, c) && disc(grid, g, c) ==> settled(grid, g, open, c),
        disc(grid, g, goal) ==> in_open(open, goal, g[idx(grid, goal)]),
        f_ok(open, goal),
    ensures
        entry_within(open, q.len() - 1),
    decreases q.len() - i,
{
    lemma_path_steps(grid, q, start, goal);
    lemma_manhattan_steps(q, i);
    let c = q[i];
    if in_open(open, c, g[idx(grid, c)]) {
        let j = choose|j: int|
            0 <= j < open.len() && #[trigger] open[j].pos == c && open[j].g_score == g[idx(grid, c)];
        assert(open[j].f_score == open[j].g_score + spec_heuristic(open[j].pos, goal));
        assert(open[j].f_score <= q.len() - 1);
    } else {
        assert(settled(grid, g, open, c));
        assert(expanded(grid, g, c));
        if i == q.len() - 1 {
            assert(c == goal);
        } else {
            let n = q[i + 1];
            lemma_path_step(grid, q, start, goal, i + 1);
            lemma_index_facts(grid, c);
            lemma_adjacent_is_neighbor(c, n);
            let d = choose|d: int| 0 <= d < 4 && #[trigger] neighbor_at(c, d) == n;
            assert(in_grid(grid, neighbor_at(c, d)));
            lemma_frontier_bound(grid, g, open, q, start, goal, i + 1);
        }
    }
}

/// The entry the frontier pops first has `f`, and so cost, at most the
/// number of steps of any path to the goal.
proof fn lemma_pop_bound(
    grid: PathGrid,
    g: Seq<i32>,
    open: Seq<FrontierNode>,
    k: int,
    q: Seq<Cell>,
    start: Cell,
    goal: Cell,
)
    requires
        is_path(grid, q, start, goal),
        g.len() == grid.spec_width() * grid.spec_height(),
        in_grid(grid, start),
        g[idx(grid, start)] == 0,
        0 <= k < open.len(),
        forall|j: int| 0 <= j < open.len() ==> !ranks_before(#[trigger] open[j], open[k]),
        forall|c: Cell| #[trigger] in_grid(grid, c) && disc(grid, g, c) ==> settled(grid, g, open, c),
        disc(grid, g, goal) ==> in_open(open, goal, g[idx(grid, goal)]),
        f_ok(open, goal),
    ensures
        open[k].f_score <= q.len() - 1,
        open[k].g_score <= q.len() - 1,
{
    assert(q[0] == start);
    lemma_index_facts(grid, start);
    lemma_frontier_bound(grid, g, open, q, start, goal, 0);
    let j = choose|j: int| 0 <= j < open.len() && #[trigger] open[j].f_score <= q.len() - 1;
    assert(!ranks_before(open[j], open[k]));
    assert(open[k].f_score == open[k].g_score + spec_heuristic(open[k].pos, goal));
}

proof fn lemma_table_basic(grid: PathGrid, g: Seq<i32>, came: Seq<Option<Cell>>, start: Cell)
    requires
        table_ok(grid, g, came, start),
    ensures
        g.len() == grid.spec_width() * grid.spec_height(),
        came.len() == g.len(),
        g[idx(grid, start)] == 0,
        came[idx(grid, start)] is None,
        forall|j: int| 0 <= j < g.len() ==> #[trigger] g[j] >= 0,
        g_sum(g) >= 0,
{
    reveal(table_ok);
    lemma_g_sum_nonneg(g);
}

proof fn lemma_table_chain(
    grid: PathGrid,
    g: Seq<i32>,
    came: Seq<Option<Cell>>,
    start: Cell,
    c: Cell,
)
    requires
        table_ok(grid, g, came, start),
        in_grid(grid, c),
        disc(grid, g, c),
        c != start,
    ensures
        chain_ok(grid, g, came, c),
{
    reveal(table_ok);
}

proof fn lemma_open_entry(grid: PathGrid, g: Seq<i32>, open: Seq<FrontierNode>, j: int)
    requires
        open_ok(grid, g, open),
        0 <= j < open.len(),
    ensures
        in_grid(grid, open[j].pos),
        0 <= open[j].g_score < i32::MAX,
        g[idx(grid, open[j].pos)] <= open[j].g_score,
        open[j].g_score < disc_count(g),
{
    reveal(open_ok);
}

/// The table and frontier right after the start cell is costed.
proof fn lemma_initial_state(
    grid: PathGrid,
    g0: Seq<i32>,
    came: Seq<Option<Cell>>,
    start: Cell,
    goal: Cell,
    e: FrontierNode,
)
    requires
        in_grid(grid, start),
        in_grid(grid, goal),
        start != goal,
        g0.len() == grid.spec_width() * grid.spec_height(),
        came.len() == g0.len(),
        forall|j: int| 0 <= j < g0.len() ==> g0[j] == i32::MAX,
        forall|j: int| 0 <= j < came.len() ==> came[j] is None,
        e.pos == start,
        e.g_score == 0,
    ensures
        ({
            let g = g0.update(idx(grid, start), 0);
            &&& table_ok(grid, g, came, start)
            &&& open_ok(grid, g, seq![e])
            &&& forall|c: Cell| #[trigger]
                in_grid(grid, c) && disc(grid, g, c) ==> settled(grid, g, seq![e], c)
            &&& !disc(grid, g, goal)
        }),
{
    let g = g0.update(idx(grid, start), 0);
    let si = idx(grid, start);
    lemma_index_facts(grid, start);
    lemma_disc_count_update(g0, si, 0);
    assert(disc_count(g0) == 0) by {
        lemma_disc_count_zero(g0);
    }
    assert forall|c: Cell| #[trigger] in_grid(grid, c) && disc(grid, g, c) implies c == start by {
        lemma_index_facts(grid, c);
        if idx(grid, c) == si {
            lemma_idx_injective(grid, c, start);
        }
    }
    reveal(table_ok);
    reveal(open_ok);
    assert forall|j: int| 0 <= j < g.len() && g[j] != i32::MAX implies #[trigger] g[j] < disc_count(
        g,
    ) by {}
    let open = seq![e];
    assert forall|c: Cell| #[trigger] in_grid(grid, c) && disc(grid, g, c) implies settled(
        grid,
        g,
        open,
        c,
    ) by {
        assert(open[0].pos == c);
    }
    lemma_index_facts(grid, goal);
}

proof fn lemma_disc_count_zero(g: Seq<i32>)
    requires
        forall|j: int| 0 <= j < g.len() ==> g[j] == i32::MAX,
    ensures
        disc_count(g) == 0,
    decreases g.len(),
{
    if g.len() > 0 {
        lemma_disc_count_zero(g.drop_last());
    }
}

/// Removing the popped entry keeps every other cell settled and the goal's
/// entry in place.
proof fn lemma_after_pop(
    grid: PathGrid,
    g: Seq<i32>,
    open0: Seq<FrontierNode>,
    k: int,
    goal: Cell,
    small: bool,
)
    requires
        0 <= k < open0.len(),
        open_ok(grid, g, open0),
        small ==> forall|c: Cell| #[trigger]
            in_grid(grid, c) && disc(grid, g, c) ==> settled(grid, g, open0, c),
        disc(grid, g, goal) ==> in_open(open0, goal, g[idx(grid, goal)]),
    ensures
        open_ok(grid, g, open0.remove(k)),
        in_grid(grid, open0[k].pos),
        0 <= open0[k].g_score < i32::MAX,
        g[idx(grid, open0[k].pos)] <= open0[k].g_score,
        open0[k].g_score < disc_count(g),
        small ==> forall|c: Cell| #[trigger]
            in_grid(grid, c) && disc(grid, g, c) && c != open0[k].pos ==> settled(
                grid,
                g,
                open0.remove(k),
                c,
            ),
        disc(grid, g, goal) && open0[k].pos != goal ==> in_open(open0.remove(k), goal, g[idx(grid, goal)]),
        small && disc(grid, g, open0[k].pos) && g[idx(grid, open0[k].pos)] != open0[k].g_score
            ==> settled(grid, g, open0.remove(k), open0[k].pos),
        f_ok(open0, goal) ==> f_ok(open0.remove(k), goal),
{
    let open1 = open0.remove(k);
    lemma_open_entry(grid, g, open0, k);
    assert forall|j: int| 0 <= j < open1.len() implies #[trigger] open1[j] == if j < k {
        open0[j]
    } else {
        open0[j + 1]
    } by {}
    assert(open_ok(grid, g, open1)) by {
        reveal(open_ok);
        assert forall|j: int| 0 <= j < open1.len() implies {
            &&& in_grid(grid, #[trigger] open1[j].pos)
            &&& 0 <= open1[j].g_score < i32::MAX
            &&& g[idx(grid, open1[j].pos)] <= open1[j].g_score
            &&& open1[j].g_score < disc_count(g)
        } by {
            if j < k {
                assert(open1[j] == open0[j]);
            } else {
                assert(open1[j] == open0[j + 1]);
            }
        }
    }
    if small {
        assert forall|c: Cell| #[trigger]
            in_grid(grid, c) && disc(grid, g, c) && c != open0[k].pos implies settled(
            grid,
            g,
            open1,
            c,
        ) by {
            assert(settled(grid, g, open0, c));
            if in_open(open0, c, g[idx(grid, c)]) {
                let j = choose|j: int|
                    0 <= j < open0.len() && #[trigger] open0[j].pos == c && open0[j].g_score == g[idx(
                        grid,
                        c,
                    )];
                if j < k {
                    assert(open1[j] == open0[j]);
                    assert(open1[j].pos == c);
                } else {
                    assert(j != k);
                    assert(open1[j - 1] == open0[j]);
                    assert(open1[j - 1].pos == c);
                }
            }
        }
    }
    if disc(grid, g, goal) && open0[k].pos != goal {
        let j = choose|j: int|
            0 <= j < open0.len() && #[trigger] open0[j].pos == goal && open0[j].g_score == g[idx(
                grid,
                goal,
            )];
        if j < k {
            assert(open1[j] == open0[j]);
            assert(open1[j].pos == goal);
        } else {
            assert(open1[j - 1] == open0[j]);
            assert(open1[j - 1].pos == goal);
        }
    }
    let c = open0[k].pos;
    if small && disc(grid, g, c) && g[idx(grid, c)] != open0[k].g_score {
        assert(settled(grid, g, open0, c));
        if in_open(open0, c, g[idx(grid, c)]) {
            let j = choose|j: int|
                0 <= j < open0.len() && #[trigger] open0[j].pos == c && open0[j].g_score == g[idx(
                    grid,
                    c,
                )];
            assert(j != k);
            if j < k {
                assert(open1[j] == open0[j]);
                assert(open1[j].pos == c);
            } else {
                assert(open1[j - 1] == open0[j]);
                assert(open1[j - 1].pos == c);
            }
        }
    }
    if f_ok(open0, goal) {
        assert forall|j: int| 0 <= j < open1.len() implies #[trigger] open1[j].f_score
            == open1[j].g_score + spec_heuristic(open1[j].pos, goal) by {
            if j < k {
                assert(open1[j] == open0[j]);
            } else {
                assert(open1[j] == open0[j + 1]);
            }
        }
    }
}

/// Lowering the cost of `next` through `cur` keeps the cost table sound.
proof fn lemma_relax_table(
    grid: PathGrid,
    g: Seq<i32>,
    came: Seq<Option<Cell>>,
    start: Cell,
    cur: Cell,
    cur_g: i32,
    next: Cell,
)
    requires
        table_ok(grid, g, came, start),
        in_grid(grid, start),
        in_grid(grid, cur),
        0 <= cur_g < i32::MAX,
        cur_g < disc_count(g),
        g[idx(grid, cur)] <= cur_g,
        in_grid(grid, next),
        passable(grid, next),
        adjacent(cur, next),
        cur_g + 1 < g[idx(grid, next)],
    ensures
        ({
            let t = (cur_g + 1) as i32;
            let g2 = g.update(idx(grid, next), t);
            let came2 = came.update(idx(grid, next), Some(cur));
            &&& table_ok(grid, g2, came2, start)
            &&& disc_count(g2) >= disc_count(g)
            &&& t < disc_count(g2)
        }),
{
    let t = (cur_g + 1) as i32;
    let ni = idx(grid, next);
    let g2 = g.update(ni, t);
    let came2 = came.update(ni, Some(cur));
    reveal(table_ok);
    lemma_index_facts(grid, next);
    lemma_index_facts(grid, cur);
    lemma_index_facts(grid, start);
    lemma_disc_count_update(g, ni, t);
    assert(idx(grid, cur) != ni) by {
        if idx(grid, cur) == ni {
            lemma_idx_injective(grid, cur, next);
            assert(adjacent(cur, cur));
        }
    }
    assert(idx(grid, start) != ni) by {
        if idx(grid, start) == ni {
            lemma_idx_injective(grid, start, next);
        }
    }
    assert(t < disc_count(g2));
    assert forall|j: int| 0 <= j < g2.len() && g2[j] != i32::MAX implies #[trigger] g2[j]
        < disc_count(g2) by {
        if j != ni {
            assert(g2[j] == g[j]);
        }
    }
    assert forall|j: int| 0 <= j < g2.len() implies #[trigger] g2[j] >= 0 by {
        if j != ni {
            assert(g2[j] == g[j]);
        }
    }
    assert forall|c: Cell| #[trigger]
        in_grid(grid, c) && disc(grid, g2, c) && c != start implies chain_ok(
        grid,
        g2,
        came2,
        c,
    ) by {
        lemma_index_facts(grid, c);
        if idx(grid, c) == ni {
            lemma_idx_injective(grid, c, next);
        } else {
            assert(g2[idx(grid, c)] == g[idx(grid, c)]);
            assert(came2[idx(grid, c)] == came[idx(grid, c)]);
            assert(chain_ok(grid, g, came, c));
            let p = came[idx(grid, c)]->0;
            lemma_index_facts(grid, p);
        }
    }
}

/// Lowering the cost of `next` and pushing its entry keeps the frontier
/// consistent, keeps settled cells settled and keeps an entry for the goal.
proof fn lemma_relax_open(
    grid: PathGrid,
    g: Seq<i32>,
    open: Seq<FrontierNode>,
    goal: Cell,
    next: Cell,
    e: FrontierNode,
    g2: Seq<i32>,
)
    requires
        open_ok(grid, g, open),
        g.len() == grid.spec_width() * grid.spec_height(),
        in_grid(grid, next),
        in_grid(grid, goal),
        e.pos == next,
        0 <= e.g_score < i32::MAX,
        e.g_score < g[idx(grid, next)],
        g2 == g.update(idx(grid, next), e.g_score),
        disc_count(g2) >= disc_count(g),
        e.g_score < disc_count(g2),
        disc(grid, g, goal) ==> in_open(open, goal, g[idx(grid, goal)]),
    ensures
        open_ok(grid, g2, open.push(e)),
        disc(grid, g2, next),
        in_open(open.push(e), next, g2[idx(grid, next)]),
        forall|c: Cell| #[trigger]
            in_grid(grid, c) && c != next ==> g2[idx(grid, c)] == g[idx(grid, c)],
        forall|c: Cell| #[trigger] in_grid(grid, c) && disc(grid, g, c) ==> disc(grid, g2, c),
        forall|c: Cell| #[trigger]
            in_grid(grid, c) && settled(grid, g, open, c) ==> settled(grid, g2, open.push(e), c),
        disc(grid, g2, goal) ==> in_open(open.push(e), goal, g2[idx(grid, goal)]),
{
    let ni = idx(grid, next);
    let open2 = open.push(e);
    lemma_index_facts(grid, next);
    assert(open2[open.len() as int] == e);
    assert forall|c: Cell| #[trigger] in_grid(grid, c) && c != next implies g2[idx(grid, c)] == g[idx(
        grid,
        c,
    )] by {
        lemma_index_facts(grid, c);
        if idx(grid, c) == ni {
            lemma_idx_injective(grid, c, next);
        }
    }
    assert forall|c: Cell| #[trigger] in_grid(grid, c) && disc(grid, g, c) implies disc(
        grid,
        g2,
        c,
    ) by {
        lemma_index_facts(grid, c);
    }
    assert(open_ok(grid, g2, open2)) by {
        reveal(open_ok);
        assert forall|j: int| 0 <= j < open2.len() implies {
            &&& in_grid(grid, #[trigger] open2[j].pos)
            &&& 0 <= open2[j].g_score < i32::MAX
            &&& g2[idx(grid, open2[j].pos)] <= open2[j].g_score
            &&& open2[j].g_score < disc_count(g2)
        } by {
            if j < open.len() {
                assert(open2[j] == open[j]);
                lemma_index_facts(grid, open[j].pos);
            }
        }
    }
    assert forall|c: Cell| #[trigger]
        in_grid(grid, c) && settled(grid, g, open, c) implies settled(grid, g2, open2, c) by {
        if c == next {
            assert(open2[open.len() as int].pos == c);
        } else if in_open(open, c, g[idx(grid, c)]) {
            let j = choose|j: int|
                0 <= j < open.len() && #[trigger] open[j].pos == c && open[j].g_score == g[idx(
                    grid,
                    c,
                )];
            assert(open2[j] == open[j]);
        } else {
            assert(g2[idx(grid, c)] == g[idx(grid, c)]);
            assert forall|d: int|
                0 <= d < 4 && #[trigger] in_grid(grid, neighbor_at(c, d)) && passable(
                    grid,
                    neighbor_at(c, d),
                ) implies disc(grid, g2, neighbor_at(c, d)) && g2[idx(grid, neighbor_at(c, d))]
                <= g2[idx(grid, c)] + 1 by {
                let nb = neighbor_at(c, d);
                assert(disc(grid, g, nb) && g[idx(grid, nb)] <= g[idx(grid, c)] + 1);
                if nb != next {
                    assert(g2[idx(grid, nb)] == g[idx(grid, nb)]);
                }
            }
        }
    }
    if disc(grid, g2, goal) {
        if goal == next {
            assert(open2[open.len() as int].pos == goal);
        } else {
            assert(g2[idx(grid, goal)] == g[idx(grid, goal)]);
            let j = choose|j: int|
                0 <= j < open.len() && #[trigger] open[j].pos == goal && open[j].g_score == g[idx(
                    grid,
                    goal,
                )];
            assert(open2[j] == open[j]);
        }
    }
}

/// Extending the walked chain by the predecessor of its last cell keeps
/// every step adjacent and every cell left behind passable.
proof fn lemma_chain_push(grid: PathGrid, old_out: Seq<Cell>, prev: Cell, out: Seq<Cell>)
    requires
        old_out.len() >= 1,
        out == old_out.push(prev),
        adjacent(prev, old_out.last()),
        passable(grid, old_out.last()),
        forall|i: int|
            1 <= i < old_out.len() ==> #[trigger] adjacent(old_out[i], old_out[i - 1]) && passable(
                grid,
                old_out[i - 1],
            ),
    ensures
        forall|i: int|
            1 <= i < out.len() ==> #[trigger] adjacent(out[i], out[i - 1]) && passable(grid, out[i - 1]),
{
    assert forall|i: int| 1 <= i < out.len() implies #[trigger] adjacent(out[i], out[i - 1]) && passable(
        grid,
        out[i - 1],
    ) by {
        if i < old_out.len() {
            assert(out[i] == old_out[i]);
            assert(out[i - 1] == old_out[i - 1]);
            assert(adjacent(old_out[i], old_out[i - 1]) && passable(grid, old_out[i - 1]));
        } else {
            assert(out[i] == prev);
            assert(out[i - 1] == old_out.last());
        }
    }
}

/// Follows the predecessor links from `goal` back to `start` and returns the
/// cells in walking order.
#[verifier::spinoff_prover]
fn reconstruct_path(
    came: &Vec<Option<Cell>>,
    Ghost(grid): Ghost<PathGrid>,
    Ghost(g): Ghost<Seq<i32>>,
    w: usize,
    n: usize,
    start: Cell,
    goal: Cell,
) -> (p: Vec<Cell>)
    requires
        table_ok(grid, g, came@, start),
        w == grid.spec_width(),
        n == grid.spec_width() * grid.spec_height(),
        in_grid(grid, goal),
        in_grid(grid, start),
        disc(grid, g, goal),
        passable(grid, goal),
    ensures
        is_path(grid, p@, start, goal),
        p@.len() <= g[idx(grid, goal)] + 1,
        p@ == chain(grid, came@, goal, n as nat).reverse(),
{
    proof {
        lemma_table_basic(grid, g, came@, start);
        reveal(table_ok);
        lemma_index_facts(grid, goal);
        lemma_disc_count_bound(g, 0);
        assert(g[idx(grid, goal)] < n);
    }
    let mut out: Vec<Cell> = vec![goal];
    proof {
        assert(out@.drop_last() + chain(grid, came@, goal, n as nat) =~= chain(grid, came@, goal, n as nat));
    }
    let mut cur = goal;
    loop
        invariant
            table_ok(grid, g, came@, start),
            came@.len() == n,
            w == grid.spec_width(),
            n == grid.spec_width() * grid.spec_height(),
            in_grid(grid, cur),
            disc(grid, g, cur),
            cur != start ==> passable(grid, cur),
            out@.len() >= 1,
            out@[0] == goal,
            out@.last() == cur,
            out@.len() + g[idx(grid, cur)] <= g[idx(grid, goal)] + 1,
            g[idx(grid, goal)] < n,
            chain(grid, came@, goal, n as nat) == out@.drop_last() + chain(
                grid,
                came@,
                cur,
                (n - (out@.len() - 1)) as nat,
            ),
            forall|i: int|
                1 <= i < out@.len() ==> #[trigger] adjacent(out@[i], out@[i - 1]) && passable(
                    grid,
                    out@[i - 1],
                ),
        ensures
            out@.len() >= 1,
            out@[0] == goal,
            out@.last() == start,
            out@.len() <= g[idx(grid, goal)] + 1,
            out@ == chain(grid, came@, goal, n as nat),
            forall|i: int|
                1 <= i < out@.len() ==> #[trigger] adjacent(out@[i], out@[i - 1]) && passable(
                    grid,
                    out@[i - 1],
                ),
        decreases g[idx(grid, cur)],
    {
        proof {
            lemma_index_facts(grid, cur);
        }
        let ci = cur.z as usize * w + cur.x as usize;
        match came[ci] {
            Some(prev) => {
                proof {
                    lemma_table_basic(grid, g, came@, start);
                    if cur == start {
                        assert(came@[idx(grid, start)] is None);
                    }
                    lemma_table_chain(grid, g, came@, start, cur);
                    if prev != start {
                        lemma_table_chain(grid, g, came@, start, prev);
                    }
                }
                let ghost old_out = out@;
                proof {
                    let f = (n - (old_out.len() - 1)) as nat;
                    assert(g[idx(grid, cur)] >= 0);
                    assert(f >= 1);
                    assert(ci == idx(grid, cur));
                    assert(chain(grid, came@, cur, f) == seq![cur] + chain(grid, came@, prev, (f - 1) as nat));
                    assert(old_out =~= old_out.drop_last().push(cur));
                }
                out.push(prev);
                proof {
                    assert(out@.drop_last() =~= old_out);
                    assert(chain(grid, came@, goal, n as nat) =~= out@.drop_last() + chain(
                        grid,
                        came@,
                        prev,
                        (n - (out@.len() - 1)) as nat,
                    ));
                    lemma_index_facts(grid, prev);
                    assert(g[idx(grid, prev)] >= 0);
                    assert(g[idx(grid, prev)] < g[idx(grid, cur)]);
                    assert(out@ == old_out.push(prev));
                    lemma_chain_push(grid, old_out, prev, out@);
                }
                cur = prev;
            },
            None => {
                proof {
                    if cur != start {
                        lemma_table_chain(grid, g, came@, start, cur);
                    }
                    lemma_table_basic(grid, g, came@, start);
                    lemma_index_facts(grid, cur);
                    let f = (n - (out@.len() - 1)) as nat;
                    assert(f >= 1);
                    assert(ci == idx(grid, cur));
                    assert(chain(grid, came@, cur, f) == seq![cur]);
                    assert(out@ =~= out@.drop_last().push(cur));
                    assert(out@ =~= out@.drop_last() + seq![cur]);
                }
                break ;
            },
        }
    }
    let mut res: Vec<Cell> = Vec::new();
    let mut i: usize = out.len();
    while i > 0
        invariant
            i <= out@.len(),
            res@.len() == out@.len() - i,
            forall|j: int| 0 <= j < res@.len() ==> #[trigger] res@[j] == out@[out@.len() - 1 - j],
        decreases i,
    {
        i -= 1;
        res.push(out[i]);
    }
    proof {
        lemma_reversed_path(grid, out@, res@, start, goal);
        assert(res@ =~= out@.reverse());
    }
    res
}

/// The predecessor chain from the goal, read backwards, is a path from the
/// start.
proof fn lemma_reversed_path(grid: PathGrid, out: Seq<Cell>, res: Seq<Cell>, start: Cell, goal: Cell)
    requires
        out.len() >= 1,
        out[0] == goal,
        out.last() == start,
        forall|i: int| 1 <= i < out.len() ==> #[trigger] adjacent(out[i], out[i - 1]) && passable(grid, out[i - 1]),
        res.len() == out.len(),
        forall|j: int| 0 <= j < res.len() ==> #[trigger] res[j] == out[out.len() - 1 - j],
    ensures
        is_path(grid, res, start, goal),
{
    let m = out.len();
    assert(res[0] == out[m - 1]);
    assert(res[m - 1] == out[0]);
    assert forall|i: int| 1 <= i < res.len() implies #[trigger] adjacent(res[i - 1], res[i]) && passable(
        grid,
        res[i],
    ) by {
        let k = m - i;
        assert(res[i - 1] == out[k]);
        assert(res[i] == out[k - 1]);
        assert(adjacent(out[k], out[k - 1]));
    }
}

/// The search's tables and frontier: costs, predecessor links, entries.
type SearchState = (Seq<i32>, Seq<Option<Cell>>, Seq<FrontierNode>);

/// Looking at neighbour `d` of the popped entry `cur`: a passable
/// neighbour whose cost it lowers gets the new cost, `cur`'s cell as its
/// predecessor, and a frontier entry.
spec fn relax(grid: PathGrid, goal: Cell, st: SearchState, cur: FrontierNode, d: int) -> SearchState {
    let next = neighbor_at(cur.pos, d);
    if in_grid(grid, next) && !grid.spec_blocked(next.x as int, next.z as int) {
        let ni = idx(grid, next);
        let t = cur.g_score + 1;
        if t < st.0[ni] {
            (
                st.0.update(ni, t as i32),
                st.1.update(ni, Some(cur.pos)),
                st.2.push(FrontierNode { pos: next, g_score: t as i32, f_score: (t + spec_heuristic(next, goal)) as i64 }),
            )
        } else {
            st
        }
    } else {
        st
    }
}

/// Looking at the first `d` neighbours of `cur`, in order.
spec fn expand(grid: PathGrid, goal: Cell, st: SearchState, cur: FrontierNode, d: int) -> SearchState
    decreases d,
{
    if d <= 0 {
        st
    } else {
        relax(grid, goal, expand(grid, goal, st, cur, d - 1), cur, d - 1)
    }
}

/// The predecessor links when the goal's entry is popped, within `fuel`
/// pops; none when the frontier runs empty first.
spec fn run(grid: PathGrid, goal: Cell, st: SearchState, fuel: nat) -> Option<Seq<Option<Cell>>>
    decreases fuel,
{
    if fuel == 0 || st.2.len() == 0 {
        None
    } else {
        let k = min_index(st.2, st.2.len() as int);
        let cur = st.2[k];
        if cur.pos == goal {
            Some(st.1)
        } else {
            run(grid, goal, expand(grid, goal, (st.0, st.1, st.2.remove(k)), cur, 4), (fuel - 1) as nat)
        }
    }
}

/// The cells from `c` back along the predecessor links, within `fuel` steps.
spec fn chain(grid: PathGrid, came: Seq<Option<Cell>>, c: Cell, fuel: nat) -> Seq<Cell>
    decreases fuel,
{
    if fuel == 0 {
        seq![c]
    } else {
        match came[idx(grid, c)] {
            None => seq![c],
            Some(p) => seq![c] + chain(grid, came, p, (fuel - 1) as nat),
        }
    }
}

/// Pops enough for any search on a grid of `n` cells.
spec fn fuel_for(n: int) -> nat {
    (5 * n * 2147483647 + 2) as nat
}

spec fn initial_state(grid: PathGrid, start: Cell, goal: Cell) -> SearchState {
    let n = grid.spec_width() * grid.spec_height();
    (
        Seq::new(n, |j: int| i32::MAX).update(idx(grid, start), 0),
        Seq::new(n, |j: int| None::<Cell>),
        seq![FrontierNode { pos: start, g_score: 0, f_score: spec_heuristic(start, goal) as i64 }],
    )
}

/// The route the search yields: none when an end is off the grid or the
/// goal is blocked; the start alone when it is the goal; else, starting
/// from the start at cost 0, it pops the frontier entry of lowest `f`
/// (cost plus Manhattan distance to the goal), then lowest cost, then
/// greatest `x`, then greatest `z`; stops with the predecessor chain of
/// the goal, read from the start, when the goal's entry is popped; else
/// gives each passable neighbour (+x, -x, +z, -z) whose cost it lowers
/// that cost, a link back and a frontier entry; and gives none when the
/// frontier runs empty.
pub closed spec fn astar_route(grid: PathGrid, start: Cell, goal: Cell) -> Option<Seq<Cell>> {
    if !in_grid(grid, start) || !in_grid(grid, goal) || grid.spec_blocked(goal.x as int, goal.z as int) {
        None
    } else if start == goal {
        Some(seq![start])
    } else {
        let n = grid.spec_width() * grid.spec_height();
        match run(grid, goal, initial_state(grid, start, goal), fuel_for(n as int)) {
            Some(came) => Some(chain(grid, came, goal, n as nat).reverse()),
            None => None,
        }
    }
}

proof fn lemma_g_sum_bound(g: Seq<i32>)
    ensures
        g_sum(g) <= g.len() * 2147483647,
    decreases g.len(),
{
    if g.len() > 0 {
        lemma_g_sum_bound(g.drop_last());
    }
}

/// Finds a route from `start` to `goal` over orthogonal steps with A*.
/// Returns `None` when either end lies outside the grid, the goal is
/// blocked, or no route exists; otherwise a path whose first cell is
/// `start` and last cell is `goal`, exactly the route `astar_route`
/// describes. Costs are counted in `i32`: the search
/// finds a route whenever one of fewer than `i32::MAX` cells exists, or
/// any route on a grid of at most `i32::MAX` cells, and the path it returns
/// is no longer than any such route.
pub fn find_path(grid: &PathGrid, start: Cell, goal: Cell) -> (r: Option<Vec<Cell>>)
    requires
        grid.wf(),
    ensures
        r matches Some(p) ==> is_path(*grid, p@, start, goal) && route_exists(*grid, start, goal),
        grid.spec_width() * grid.spec_height() <= i32::MAX && route_exists(*grid, start, goal)
            ==> r is Some,
        (exists|q: Seq<Cell>| #[trigger] is_path(*grid, q, start, goal) && q.len() < i32::MAX)
            && route_exists(*grid, start, goal) ==> r is Some,
        r matches Some(p) ==> forall|q: Seq<Cell>|
            #[trigger] is_path(*grid, q, start, goal) && (grid.spec_width() * grid.spec_height()
                <= i32::MAX || q.len() < i32::MAX) ==> p@.len() <= q.len(),
        (match r {
            Some(p) => Some(p@),
            None => None,
        }) == astar_route(*grid, start, goal),
{
    if !grid.in_bounds(start.x, start.z) || !grid.in_bounds(goal.x, goal.z) {
        return None;
    }
    if grid.is_blocked(goal.x, goal.z) {
        return None;
    }
    if start == goal {
        let out = vec![start];
        proof {
            assert(is_path(*grid, out@, start, goal));
        }
        return Some(out);
    }
    let ghost gr = *grid;
    let n = grid.cell_count();
    let w = grid.width();
    let ghost small = n <= i32::MAX;
    let ghost short = exists|q: Seq<Cell>| #[trigger] is_path(gr, q, start, goal) && q.len() < i32::MAX;
    let ghost fine = small || short;
    let mut g: Vec<i32> = Vec::new();
    let mut came: Vec<Option<Cell>> = Vec::new();
    let mut i: usize = 0;
    while i < n
        invariant
            i <= n,
            g.len() == i,
            came.len() == i,
            forall|j: int| 0 <= j < i ==> g@[j] == i32::MAX,
            forall|j: int| 0 <= j < i ==> came@[j] is None,
        decreases n - i,
    {
        g.push(i32::MAX);
        came.push(None);
        i += 1;
    }
    proof {
        lemma_index_facts(gr, start);
        lemma_index_facts(gr, goal);
    }
    let start_idx = start.z as usize * w + start.x as usize;
    let first = FrontierNode { pos: start, g_score: 0, f_score: heuristic(start, goal) };
    proof {
        lemma_initial_state(gr, g@, came@, start, goal, first);
    }
    let ghost g_init = g@;
    g.set(start_idx, 0);
    let mut open: Vec<FrontierNode> = Vec::new();
    open.push(first);
    let ghost init = initial_state(gr, start, goal);
    let ghost total = fuel_for(n as int);
    let ghost mut fuel: nat = total;
    proof {
        assert(open@ == seq![first]);
        assert(open@[0] == first);
        assert(f_ok(open@, goal));
        assert(g_init =~= Seq::new(n as nat, |j: int| i32::MAX));
        assert(g@ =~= init.0);
        assert(came@ =~= init.1);
        assert(first.f_score == spec_heuristic(start, goal) as i64);
        assert(open@ =~= init.2);
        lemma_g_sum_bound(g@);
        assert(5 * g_sum(g@) + 1 < total);
    }
    while open.len() > 0
        invariant
            gr == *grid,
            gr.wf(),
            w == gr.spec_width(),
            n == gr.spec_width() * gr.spec_height(),
            small == (n <= i32::MAX),
            short == exists|q: Seq<Cell>| #[trigger] is_path(gr, q, start, goal) && q.len() < i32::MAX,
            fine == (small || short),
            in_grid(gr, start),
            in_grid(gr, goal),
            passable(gr, goal),
            start != goal,
            table_ok(gr, g@, came@, start),
            open_ok(gr, g@, open@),
            fine ==> forall|c: Cell| #[trigger]
                in_grid(gr, c) && disc(gr, g@, c) ==> settled(gr, g@, open@, c),
            disc(gr, g@, goal) ==> in_open(open@, goal, g@[idx(gr, goal)]),
            f_ok(open@, goal),
            init == initial_state(gr, start, goal),
            total == fuel_for(n as int),
            run(gr, goal, (g@, came@, open@), fuel) == run(gr, goal, init, total),
            fuel > 5 * g_sum(g@) + open@.len(),
        decreases 5 * g_sum(g@) + open.len(),
    {
        proof {
            lemma_table_basic(gr, g@, came@, start);
        }
        let ghost open0 = open@;
        let ghost st0: SearchState = (g@, came@, open@);
        let k = best_index(&open);
        let current = open.remove(k);
        let ghost st1: SearchState = (g@, came@, open@);
        proof {
            assert(open@ == open0.remove(k as int));
            assert(current == open0[k as int]);
            assert(fuel >= 1);
        }
        proof {
            lemma_after_pop(gr, g@, open0, k as int, goal, fine);
            if short {
                let q = choose|q: Seq<Cell>| #[trigger] is_path(gr, q, start, goal) && q.len() < i32::MAX;
                lemma_pop_bound(gr, g@, open0, k as int, q, start, goal);
            }
        }
        if current.pos == goal {
            let p = reconstruct_path(&came, Ghost(gr), Ghost(g@), w, n, start, goal);
            proof {
                assert forall|q: Seq<Cell>| #[trigger] is_path(gr, q, start, goal) && (small || q.len()
                    < i32::MAX) implies p@.len() <= q.len() by {
                    lemma_pop_bound(gr, g@, open0, k as int, q, start, goal);
                }
                assert(run(gr, goal, st0, fuel) == Some(came@));
            }
            return Some(p);
        }
        proof {
            assert(run(gr, goal, st0, fuel) == run(gr, goal, expand(gr, goal, st1, current, 4), (fuel - 1) as nat));
        }
        proof {
            lemma_index_facts(gr, current.pos);
        }
        let nbs = neighbors(current.pos);
        let tentative_g = current.g_score + 1;
        let ghost sum0 = g_sum(g@);
        let ghost len1 = open.len();
        let mut d: usize = 0;
        while d < 4
            invariant
                gr == *grid,
                gr.wf(),
                w == gr.spec_width(),
                n == gr.spec_width() * gr.spec_height(),
                small == (n <= i32::MAX),
                fine == (small || short),
                short ==> tentative_g < i32::MAX,
                in_grid(gr, start),
                in_grid(gr, goal),
                passable(gr, goal),
                start != goal,
                current.pos != goal,
                table_ok(gr, g@, came@, start),
                open_ok(gr, g@, open@),
                in_grid(gr, current.pos),
                0 <= current.g_score < i32::MAX,
                current.g_score < disc_count(g@),
                g@[idx(gr, current.pos)] <= current.g_score,
                tentative_g == current.g_score + 1,
                forall|e: int| 0 <= e < 4 ==> #[trigger] nbs@[e] == neighbor_at(current.pos, e),
                fine ==> forall|c: Cell| #[trigger]
                    in_grid(gr, c) && disc(gr, g@, c) && c != current.pos ==> settled(
                        gr,
                        g@,
                        open@,
                        c,
                    ),
                fine ==> forall|e: int|
                    0 <= e < d && #[trigger] in_grid(gr, neighbor_at(current.pos, e)) && passable(
                        gr,
                        neighbor_at(current.pos, e),
                    ) ==> disc(gr, g@, neighbor_at(current.pos, e)) && g@[idx(
                        gr,
                        neighbor_at(current.pos, e),
                    )] <= tentative_g,
                fine && g@[idx(gr, current.pos)] != current.g_score ==> settled(
                    gr,
                    g@,
                    open@,
                    current.pos,
                ),
                disc(gr, g@, goal) ==> in_open(open@, goal, g@[idx(gr, goal)]),
                f_ok(open@, goal),
                (g@, came@, open@) == expand(gr, goal, st1, current, d as int),
                5 * g_sum(g@) + open.len() <= 5 * sum0 + len1,
                d <= 4,
            decreases 4 - d,
        {
            let next = nbs[d];
            let ghost pre: SearchState = (g@, came@, open@);
            proof {
                lemma_index_facts(gr, current.pos);
                lemma_neighbor_adjacent(current.pos, d as int);
                lemma_table_basic(gr, g@, came@, start);
            }
            if grid.in_bounds(next.x, next.z) && !grid.is_blocked(next.x, next.z) {
                proof {
                    lemma_index_facts(gr, next);
                }
                let ni = next.z as usize * w + next.x as usize;
                let known = g[ni];
                proof {
                    if small && known == i32::MAX {
                        lemma_disc_count_bound(g@, ni as int);
                    }
                }
                if tentative_g < known {
                    let ghost g1 = g@;
                    let ghost came1 = came@;
                    let ghost open1 = open@;
                    proof {
                        lemma_relax_table(
                            gr,
                            g1,
                            came1,
                            start,
                            current.pos,
                            current.g_score,
                            next,
                        );
                    }
                    came.set(ni, Some(current.pos));
                    g.set(ni, tentative_g);
                    let f = tentative_g as i64 + heuristic(next, goal);
                    let e = FrontierNode { pos: next, g_score: tentative_g, f_score: f };
                    open.push(e);
                    proof {
                        let t = current.g_score + 1;
                        assert(ni == idx(gr, next));
                        assert(t < pre.0[ni as int]);
                        assert(e == FrontierNode {
                            pos: next,
                            g_score: t as i32,
                            f_score: (t + spec_heuristic(next, goal)) as i64,
                        });
                        assert((g@, came@, open@) == relax(gr, goal, pre, current, d as int));
                    }
                    proof {
                        lemma_relax_open(gr, g1, open1, goal, next, e, g@);
                        lemma_g_sum_update(g1, idx(gr, next), tentative_g);
                        assert forall|j: int| 0 <= j < open@.len() implies #[trigger] open@[j].f_score
                            == open@[j].g_score + spec_heuristic(open@[j].pos, goal) by {
                            if j < open1.len() {
                                assert(open@[j] == open1[j]);
                            } else {
                                assert(open@[j] == e);
                            }
                        }
                        if fine {
                            if g@[idx(gr, current.pos)] != current.g_score {
                                assert(g@[idx(gr, current.pos)] == g1[idx(gr, current.pos)]);
                                assert(settled(gr, g1, open1, current.pos));
                            }
                            assert forall|c: Cell| #[trigger]
                                in_grid(gr, c) && disc(gr, g@, c) && c != current.pos implies settled(
                                gr,
                                g@,
                                open@,
                                c,
                            ) by {
                                if c != next {
                                    assert(g@[idx(gr, c)] == g1[idx(gr, c)]);
                                    assert(settled(gr, g1, open1, c));
                                }
                            }
                            assert forall|e2: int|
                                0 <= e2 < d + 1 && #[trigger] in_grid(
                                    gr,
                                    neighbor_at(current.pos, e2),
                                ) && passable(gr, neighbor_at(current.pos, e2)) implies disc(
                                gr,
                                g@,
                                neighbor_at(current.pos, e2),
                            ) && g@[idx(gr, neighbor_at(current.pos, e2))] <= tentative_g by {
                                if e2 < d {
                                    let nb = neighbor_at(current.pos, e2);
                                    assert(disc(gr, g1, nb) && g1[idx(gr, nb)] <= tentative_g);
                                    if nb != next {
                                        assert(g@[idx(gr, nb)] == g1[idx(gr, nb)]);
                                    }
                                }
                            }
                        }
                    }
                }
            }
            proof {
                assert((g@, came@, open@) == relax(gr, goal, pre, current, d as int));
                assert(expand(gr, goal, st1, current, d + 1) == relax(gr, goal, pre, current, d as int));
            }
            d += 1;
        }
        proof {
            lemma_table_basic(gr, g@, came@, start);
            if fine && g@[idx(gr, current.pos)] == current.g_score {
                assert(expanded(gr, g@, current.pos));
            }
            fuel = (fuel - 1) as nat;
        }
    }
    proof {
        lemma_table_basic(gr, g@, came@, start);
        if fine {
            assert forall|c: Cell| #[trigger] in_grid(gr, c) && disc(gr, g@, c) implies expanded(
                gr,
                g@,
                c,
            ) by {
                assert(settled(gr, g@, open@, c));
            }
            lemma_index_facts(gr, start);
            assert(disc(gr, g@, start));
            assert(!disc(gr, g@, goal));
            if reachable(gr, start, goal) {
                let p = choose|p: Seq<Cell>| is_path(gr, p, start, goal);
                lemma_path_costed(gr, g@, p, start, goal, p.len() - 1);
            }
        }
    }
    None
}

} // verus!

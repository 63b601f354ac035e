//! The grid engine: a rectangular matrix of cells, revealed by an
//! iterative flood fill, with a first-move safety rule.

use vstd::prelude::*;

verus! {

/// The state of a single cell of a minesweeper grid.
///
/// `Exploded` and `Revealed` are terminal: once a cell carries one of
/// them, no grid operation changes that cell again.
#[derive(Debug, Copy, Clone, PartialEq, Eq, Structural)]
pub enum MinesweeperCellType {
    Hidden,
    Bomb,
    Exploded,
    Revealed(u8),
}

/// Why a move was rejected or ended the game.
#[derive(Debug, Copy, Clone, PartialEq, Eq, Structural)]
pub enum Outcome {
    /// The coordinate lies outside the grid; nothing changed.
    Invalid,
    /// The targeted cell was already revealed or exploded; nothing changed.
    NoOp,
    /// A bomb was hit on a non-first move; the cell is now `Exploded`.
    Lost,
}

/// A rectangular matrix of cells. The outer vector is indexed by the
/// x coordinate, each inner vector by the y coordinate.
#[derive(Debug)]
pub struct MinesweeperGrid(pub Vec<Vec<MinesweeperCellType>>);

impl View for MinesweeperGrid {
    type V = Seq<Seq<MinesweeperCellType>>;

    open spec fn view(&self) -> Seq<Seq<MinesweeperCellType>> {
        self.0@.map_values(|column: Vec<MinesweeperCellType>| column@)
    }
}

/// The number of rows of the inner vectors; 0 for an empty grid.
pub open spec fn grid_height(g: Seq<Seq<MinesweeperCellType>>) -> int {
    if g.len() > 0 {
        g[0].len() as int
    } else {
        0
    }
}

/// The grid is rectangular: every column has the same length.
pub open spec fn grid_rect(g: Seq<Seq<MinesweeperCellType>>) -> bool {
    forall|x: int| 0 <= x < g.len() ==> #[trigger] g[x].len() == grid_height(g)
}

pub open spec fn grid_in_bounds(g: Seq<Seq<MinesweeperCellType>>, x: int, y: int) -> bool {
    &&& 0 <= x < g.len()
    &&& 0 <= y < g[x].len()
}

/// Two coordinates are adjacent when they differ by at most one in each
/// direction and are not the same cell (the 8-neighbourhood).
pub open spec fn is_adjacent(x: int, y: int, qx: int, qy: int) -> bool {
    &&& -1 <= qx - x <= 1
    &&& -1 <= qy - y <= 1
    &&& !(qx == x && qy == y)
}

/// 1 when the coordinate holds a bomb, 0 otherwise; coordinates outside
/// the grid count 0 (they are neither bombs nor safe cells).
pub open spec fn bomb_at(g: Seq<Seq<MinesweeperCellType>>, x: int, y: int) -> int {
    if grid_in_bounds(g, x, y) && g[x][y] is Bomb {
        1
    } else {
        0
    }
}

/// The number of bombs among the up-to-8 neighbours of (x, y).
pub open spec fn bombs_adjacent(g: Seq<Seq<MinesweeperCellType>>, x: int, y: int) -> int {
    bomb_at(g, x - 1, y - 1) + bomb_at(g, x - 1, y) + bomb_at(g, x - 1, y + 1) + bomb_at(
        g,
        x,
        y - 1,
    ) + bomb_at(g, x, y + 1) + bomb_at(g, x + 1, y - 1) + bomb_at(g, x + 1, y) + bomb_at(
        g,
        x + 1,
        y + 1,
    )
}

/// No cell of the grid has been revealed yet: the session's first move
/// is still to come.
pub open spec fn no_cell_revealed(g: Seq<Seq<MinesweeperCellType>>) -> bool {
    forall|x: int, y: int| grid_in_bounds(g, x, y) ==> !(#[trigger] g[x][y] is Revealed)
}

/// One flood-fill step: the hidden in-bounds cell (x, y) is revealed
/// because it neighbours the cell (px, py), which has no adjacent bomb.
pub open spec fn reach_step(
    g: Seq<Seq<MinesweeperCellType>>,
    px: int,
    py: int,
    x: int,
    y: int,
) -> bool {
    &&& grid_in_bounds(g, px, py)
    &&& bombs_adjacent(g, px, py) == 0
    &&& is_adjacent(px, py, x, y)
    &&& grid_in_bounds(g, x, y)
    &&& g[x][y] is Hidden
}

/// The cell (x, y) is revealed because its neighbour (px, py) was
/// reached within `m` steps and has no adjacent bomb.
pub open spec fn reach_neighbour(
    g: Seq<Seq<MinesweeperCellType>>,
    sx: int,
    sy: int,
    px: int,
    py: int,
    x: int,
    y: int,
    m: nat,
) -> bool
    decreases m, 1int,
{
    reach(g, sx, sy, px, py, m) && reach_step(g, px, py, x, y)
}

/// The cell (x, y) is one flood-fill step away from one of its up to 8
/// neighbours, reached within `m` steps.
pub open spec fn reach_via(
    g: Seq<Seq<MinesweeperCellType>>,
    sx: int,
    sy: int,
    x: int,
    y: int,
    m: nat,
) -> bool
    decreases m, 2int,
{
    ||| reach_neighbour(g, sx, sy, x - 1, y - 1, x, y, m)
    ||| reach_neighbour(g, sx, sy, x - 1, y, x, y, m)
    ||| reach_neighbour(g, sx, sy, x - 1, y + 1, x, y, m)
    ||| reach_neighbour(g, sx, sy, x, y - 1, x, y, m)
    ||| reach_neighbour(g, sx, sy, x, y + 1, x, y, m)
    ||| reach_neighbour(g, sx, sy, x + 1, y - 1, x, y, m)
    ||| reach_neighbour(g, sx, sy, x + 1, y, x, y, m)
    ||| reach_neighbour(g, sx, sy, x + 1, y + 1, x, y, m)
}

/// The flood-fill cascade relation, bounded by the number of steps `n`:
/// a cell is reached either because it is the starting cell, or because
/// some already reached cell with zero bomb-neighbours is adjacent to it
/// and it is still hidden.
pub open spec fn reach(
    g: Seq<Seq<MinesweeperCellType>>,
    sx: int,
    sy: int,
    x: int,
    y: int,
    n: nat,
) -> bool
    decreases n, 0int,
{
    if n == 0 {
        x == sx && y == sy
    } else {
        reach(g, sx, sy, x, y, (n - 1) as nat) || reach_via(g, sx, sy, x, y, (n - 1) as nat)
    }
}

/// The connected region that a flood fill starting at (sx, sy) reveals.
pub open spec fn reachable(
    g: Seq<Seq<MinesweeperCellType>>,
    sx: int,
    sy: int,
    x: int,
    y: int,
) -> bool {
    exists|n: nat| reach(g, sx, sy, x, y, n)
}

/// The number of cells of the column that satisfy `f`.
pub open spec fn cnt_col(c: Seq<MinesweeperCellType>, f: spec_fn(MinesweeperCellType) -> bool) -> nat
    decreases c.len(),
{
    if c.len() == 0 {
        0
    } else {
        cnt_col(c.drop_last(), f) + if f(c.last()) {
            1nat
        } else {
            0nat
        }
    }
}

/// The number of cells of the grid that satisfy `f`.
pub open spec fn cnt_grid(
    g: Seq<Seq<MinesweeperCellType>>,
    f: spec_fn(MinesweeperCellType) -> bool,
) -> nat
    decreases g.len(),
{
    if g.len() == 0 {
        0
    } else {
        cnt_grid(g.drop_last(), f) + cnt_col(g.last(), f)
    }
}

pub open spec fn revealed_pred() -> spec_fn(MinesweeperCellType) -> bool {
    |c: MinesweeperCellType| c is Revealed
}

pub open spec fn hidden_pred() -> spec_fn(MinesweeperCellType) -> bool {
    |c: MinesweeperCellType| c is Hidden
}

pub open spec fn revealed_count(g: Seq<Seq<MinesweeperCellType>>) -> nat {
    cnt_grid(g, revealed_pred())
}

pub open spec fn hidden_count(g: Seq<Seq<MinesweeperCellType>>) -> nat {
    cnt_grid(g, hidden_pred())
}

/// Both grids have the same width and the same column lengths.
pub open spec fn same_dims(g0: Seq<Seq<MinesweeperCellType>>, g1: Seq<Seq<MinesweeperCellType>>) -> bool {
    &&& g1.len() == g0.len()
    &&& forall|x: int| 0 <= x < g0.len() ==> #[trigger] g1[x].len() == g0[x].len()
}

/// The cell at (x, y) differs from what it was in `g0`.
pub open spec fn cell_changed(
    g0: Seq<Seq<MinesweeperCellType>>,
    g1: Seq<Seq<MinesweeperCellType>>,
    x: int,
    y: int,
) -> bool {
    grid_in_bounds(g0, x, y) && g1[x][y] != g0[x][y]
}

/// Every cell that changed between `g0` and `g1` was hidden, is now
/// revealed with its correct bomb-neighbour count, and lies in the
/// flood-fill region of (sx, sy).
pub open spec fn reveal_monotone(
    g0: Seq<Seq<MinesweeperCellType>>,
    g1: Seq<Seq<MinesweeperCellType>>,
    sx: int,
    sy: int,
) -> bool {
    forall|x: int, y: int|
        #![trigger grid_in_bounds(g0, x, y)]
        grid_in_bounds(g0, x, y) && g1[x][y] != g0[x][y] ==> {
            &&& g0[x][y] is Hidden
            &&& g1[x][y] == MinesweeperCellType::Revealed(bombs_adjacent(g0, x, y) as u8)
            &&& reachable(g0, sx, sy, x, y)
        }
}

/// The pending list holds an entry with the given coordinate.
pub open spec fn stack_has(st: Seq<(usize, usize)>, qx: int, qy: int) -> bool {
    exists|i: int|
        #![trigger st[i]]
        0 <= i < st.len() && st[i].0 as int == qx && st[i].1 as int == qy
}

/// Every pending coordinate is in bounds, and is in the flood-fill
/// region whenever it is still hidden in `g0`.
pub open spec fn stack_ok(
    g0: Seq<Seq<MinesweeperCellType>>,
    sx: int,
    sy: int,
    st: Seq<(usize, usize)>,
) -> bool {
    forall|i: int|
        0 <= i < st.len() ==> {
            &&& grid_in_bounds(g0, (#[trigger] st[i]).0 as int, st[i].1 as int)
            &&& (g0[st[i].0 as int][st[i].1 as int] is Hidden ==> reachable(
                g0,
                sx,
                sy,
                st[i].0 as int,
                st[i].1 as int,
            ))
        }
}

/// Every still-hidden neighbour of a changed cell with zero
/// bomb-neighbours is pending.
pub open spec fn frontier_ok(
    g0: Seq<Seq<MinesweeperCellType>>,
    g1: Seq<Seq<MinesweeperCellType>>,
    st: Seq<(usize, usize)>,
) -> bool {
    forall|px: int, py: int, qx: int, qy: int|
        #![trigger cell_changed(g0, g1, px, py), grid_in_bounds(g0, qx, qy)]
        cell_changed(g0, g1, px, py) && bombs_adjacent(g0, px, py) == 0 && is_adjacent(
            px,
            py,
            qx,
            qy,
        ) && grid_in_bounds(g0, qx, qy) && g1[qx][qy] is Hidden ==> stack_has(st, qx, qy)
}

/// The changed region is closed under one flood-fill step.
pub open spec fn flood_closed(
    g0: Seq<Seq<MinesweeperCellType>>,
    g1: Seq<Seq<MinesweeperCellType>>,
) -> bool {
    forall|px: int, py: int, qx: int, qy: int|
        #![trigger cell_changed(g0, g1, px, py), grid_in_bounds(g0, qx, qy)]
        cell_changed(g0, g1, px, py) && bombs_adjacent(g0, px, py) == 0 && is_adjacent(
            px,
            py,
            qx,
            qy,
        ) && grid_in_bounds(g0, qx, qy) && g0[qx][qy] is Hidden ==> cell_changed(g0, g1, qx, qy)
}

/// What a flood fill starting at the hidden cell (sx, sy) of `g0` did:
/// exactly the cells of the connected flood-fill region changed, each
/// to `Revealed` with its bomb-neighbour count, and `n` cells were
/// newly revealed.
pub open spec fn reveal_post(
    g0: Seq<Seq<MinesweeperCellType>>,
    g1: Seq<Seq<MinesweeperCellType>>,
    sx: int,
    sy: int,
    n: int,
) -> bool {
    &&& same_dims(g0, g1)
    &&& forall|x: int, y: int|
        #![trigger grid_in_bounds(g0, x, y)]
        grid_in_bounds(g0, x, y) ==> g1[x][y] == (if reachable(g0, sx, sy, x, y) {
            MinesweeperCellType::Revealed(bombs_adjacent(g0, x, y) as u8)
        } else {
            g0[x][y]
        })
    &&& n == revealed_count(g1) - revealed_count(g0)
}

/// In a cascade, a cell reached in any number of steps has changed,
/// provided the changed region contains the start and is closed under
/// flood-fill steps.
proof fn lemma_reach_changed(
    g0: Seq<Seq<MinesweeperCellType>>,
    g1: Seq<Seq<MinesweeperCellType>>,
    sx: int,
    sy: int,
    x: int,
    y: int,
    n: nat,
)
    requires
        flood_closed(g0, g1),
        cell_changed(g0, g1, sx, sy),
        reach(g0, sx, sy, x, y, n),
    ensures
        cell_changed(g0, g1, x, y),
    decreases n,
{
    if n == 0 {
    } else if reach(g0, sx, sy, x, y, (n - 1) as nat) {
        lemma_reach_changed(g0, g1, sx, sy, x, y, (n - 1) as nat);
    } else {
        let m = (n - 1) as nat;
        assert(reach_via(g0, sx, sy, x, y, m));
        if reach_neighbour(g0, sx, sy, x - 1, y - 1, x, y, m) {
            lemma_reach_changed(g0, g1, sx, sy, x - 1, y - 1, m);
        } else if reach_neighbour(g0, sx, sy, x - 1, y, x, y, m) {
            lemma_reach_changed(g0, g1, sx, sy, x - 1, y, m);
        } else if reach_neighbour(g0, sx, sy, x - 1, y + 1, x, y, m) {
            lemma_reach_changed(g0, g1, sx, sy, x - 1, y + 1, m);
        } else if reach_neighbour(g0, sx, sy, x, y - 1, x, y, m) {
            lemma_reach_changed(g0, g1, sx, sy, x, y - 1, m);
        } else if reach_neighbour(g0, sx, sy, x, y + 1, x, y, m) {
            lemma_reach_changed(g0, g1, sx, sy, x, y + 1, m);
        } else if reach_neighbour(g0, sx, sy, x + 1, y - 1, x, y, m) {
            lemma_reach_changed(g0, g1, sx, sy, x + 1, y - 1, m);
        } else if reach_neighbour(g0, sx, sy, x + 1, y, x, y, m) {
            lemma_reach_changed(g0, g1, sx, sy, x + 1, y, m);
        } else {
            lemma_reach_changed(g0, g1, sx, sy, x + 1, y + 1, m);
        }
    }
}

/// A pending coordinate stays pending when the list grows at the end.
proof fn lemma_stack_has_extend(st1: Seq<(usize, usize)>, st2: Seq<(usize, usize)>, qx: int, qy: int)
    requires
        stack_has(st1, qx, qy),
        st2.len() >= st1.len(),
        forall|i: int| 0 <= i < st1.len() ==> st2[i] == st1[i],
    ensures
        stack_has(st2, qx, qy),
{
    let i = choose|i: int|
        #![trigger st1[i]]
        0 <= i < st1.len() && st1[i].0 as int == qx && st1[i].1 as int == qy;
    assert(st2[i] == st1[i]);
}

/// A pending coordinate other than the last one stays pending when the
/// last entry is popped.
proof fn lemma_stack_has_pop(st: Seq<(usize, usize)>, qx: int, qy: int)
    requires
        stack_has(st, qx, qy),
        st.len() > 0,
        !(st[st.len() - 1].0 as int == qx && st[st.len() - 1].1 as int == qy),
    ensures
        stack_has(st.drop_last(), qx, qy),
{
    let i = choose|i: int|
        #![trigger st[i]]
        0 <= i < st.len() && st[i].0 as int == qx && st[i].1 as int == qy;
    assert(i != st.len() - 1);
    assert(st.drop_last()[i] == st[i]);
}

/// An in-bounds cell that is still hidden and has no bomb among its
/// neighbours: the cells a cascade passes through.
pub open spec fn zero_hidden(g: Seq<Seq<MinesweeperCellType>>, x: int, y: int) -> bool {
    &&& grid_in_bounds(g, x, y)
    &&& g[x][y] is Hidden
    &&& bombs_adjacent(g, x, y) == 0
}

/// One step between adjacent zero-hidden cells.
pub open spec fn comp_step(
    g: Seq<Seq<MinesweeperCellType>>,
    px: int,
    py: int,
    x: int,
    y: int,
) -> bool {
    &&& zero_hidden(g, px, py)
    &&& is_adjacent(px, py, x, y)
    &&& zero_hidden(g, x, y)
}

/// The zero-hidden cell (x, y) neighbours the cell (px, py) of the
/// component, reached within `m` steps.
pub open spec fn comp_neighbour(
    g: Seq<Seq<MinesweeperCellType>>,
    sx: int,
    sy: int,
    px: int,
    py: int,
    x: int,
    y: int,
    m: nat,
) -> bool
    decreases m, 1int,
{
    comp_reach(g, sx, sy, px, py, m) && comp_step(g, px, py, x, y)
}

/// The cell (x, y) is one component step away from one of its up to 8
/// neighbours, reached within `m` steps.
pub open spec fn comp_via(
    g: Seq<Seq<MinesweeperCellType>>,
    sx: int,
    sy: int,
    x: int,
    y: int,
    m: nat,
) -> bool
    decreases m, 2int,
{
    ||| comp_neighbour(g, sx, sy, x - 1, y - 1, x, y, m)
    ||| comp_neighbour(g, sx, sy, x - 1, y, x, y, m)
    ||| comp_neighbour(g, sx, sy, x - 1, y + 1, x, y, m)
    ||| comp_neighbour(g, sx, sy, x, y - 1, x, y, m)
    ||| comp_neighbour(g, sx, sy, x, y + 1, x, y, m)
    ||| comp_neighbour(g, sx, sy, x + 1, y - 1, x, y, m)
    ||| comp_neighbour(g, sx, sy, x + 1, y, x, y, m)
    ||| comp_neighbour(g, sx, sy, x + 1, y + 1, x, y, m)
}

/// The 8-connected component relation among zero-hidden cells, bounded
/// by the number of steps `n`.
pub open spec fn comp_reach(
    g: Seq<Seq<MinesweeperCellType>>,
    sx: int,
    sy: int,
    x: int,
    y: int,
    n: nat,
) -> bool
    decreases n, 0int,
{
    if n == 0 {
        x == sx && y == sy
    } else {
        comp_reach(g, sx, sy, x, y, (n - 1) as nat) || comp_via(g, sx, sy, x, y, (n - 1) as nat)
    }
}

/// The connected component of the start among zero-hidden cells.
pub open spec fn in_component(
    g: Seq<Seq<MinesweeperCellType>>,
    sx: int,
    sy: int,
    x: int,
    y: int,
) -> bool {
    exists|n: nat| comp_reach(g, sx, sy, x, y, n)
}

/// The cell has a component member among its up to 8 neighbours.
pub open spec fn component_adjacent(
    g: Seq<Seq<MinesweeperCellType>>,
    sx: int,
    sy: int,
    x: int,
    y: int,
) -> bool {
    ||| in_component(g, sx, sy, x - 1, y - 1)
    ||| in_component(g, sx, sy, x - 1, y)
    ||| in_component(g, sx, sy, x - 1, y + 1)
    ||| in_component(g, sx, sy, x, y - 1)
    ||| in_component(g, sx, sy, x, y + 1)
    ||| in_component(g, sx, sy, x + 1, y - 1)
    ||| in_component(g, sx, sy, x + 1, y)
    ||| in_component(g, sx, sy, x + 1, y + 1)
}

/// The component's boundary: hidden in-bounds cells next to it.
pub open spec fn in_boundary(
    g: Seq<Seq<MinesweeperCellType>>,
    sx: int,
    sy: int,
    x: int,
    y: int,
) -> bool {
    &&& grid_in_bounds(g, x, y)
    &&& g[x][y] is Hidden
    &&& component_adjacent(g, sx, sy, x, y)
}

/// Every cell of a component whose start is zero-hidden is itself
/// zero-hidden.
proof fn lemma_comp_zero_hidden(
    g: Seq<Seq<MinesweeperCellType>>,
    sx: int,
    sy: int,
    x: int,
    y: int,
    n: nat,
)
    requires
        zero_hidden(g, sx, sy),
        comp_reach(g, sx, sy, x, y, n),
    ensures
        zero_hidden(g, x, y),
    decreases n,
{
    if n == 0 {
    } else if comp_reach(g, sx, sy, x, y, (n - 1) as nat) {
        lemma_comp_zero_hidden(g, sx, sy, x, y, (n - 1) as nat);
    } else {
        let m = (n - 1) as nat;
        assert(comp_via(g, sx, sy, x, y, m));
        if comp_neighbour(g, sx, sy, x - 1, y - 1, x, y, m) {
        } else if comp_neighbour(g, sx, sy, x - 1, y, x, y, m) {
        } else if comp_neighbour(g, sx, sy, x - 1, y + 1, x, y, m) {
        } else if comp_neighbour(g, sx, sy, x, y - 1, x, y, m) {
        } else if comp_neighbour(g, sx, sy, x, y + 1, x, y, m) {
        } else if comp_neighbour(g, sx, sy, x + 1, y - 1, x, y, m) {
        } else if comp_neighbour(g, sx, sy, x + 1, y, x, y, m) {
        } else {
            assert(comp_neighbour(g, sx, sy, x + 1, y + 1, x, y, m));
        }
    }
}

/// A component step sequence is in particular a flood-fill sequence.
proof fn lemma_comp_reach_implies_reach(
    g: Seq<Seq<MinesweeperCellType>>,
    sx: int,
    sy: int,
    x: int,
    y: int,
    n: nat,
)
    requires
        comp_reach(g, sx, sy, x, y, n),
    ensures
        reach(g, sx, sy, x, y, n),
    decreases n, 0int,
{
    if n == 0 {
    } else {
        let m = (n - 1) as nat;
        if comp_reach(g, sx, sy, x, y, m) {
            lemma_comp_reach_implies_reach(g, sx, sy, x, y, m);
        } else {
            assert(comp_via(g, sx, sy, x, y, m));
            lemma_comp_via_implies_reach_via(g, sx, sy, x, y, m);
        }
    }
}

/// A component step into (x, y) is a flood-fill step into it.
proof fn lemma_comp_via_implies_reach_via(
    g: Seq<Seq<MinesweeperCellType>>,
    sx: int,
    sy: int,
    x: int,
    y: int,
    m: nat,
)
    requires
        comp_via(g, sx, sy, x, y, m),
    ensures
        reach_via(g, sx, sy, x, y, m),
    decreases m, 3int,
{
    if comp_neighbour(g, sx, sy, x - 1, y - 1, x, y, m) {
        lemma_comp_reach_implies_reach(g, sx, sy, x - 1, y - 1, m);
        assert(reach_neighbour(g, sx, sy, x - 1, y - 1, x, y, m));
    } else if comp_neighbour(g, sx, sy, x - 1, y, x, y, m) {
        lemma_comp_reach_implies_reach(g, sx, sy, x - 1, y, m);
        assert(reach_neighbour(g, sx, sy, x - 1, y, x, y, m));
    } else if comp_neighbour(g, sx, sy, x - 1, y + 1, x, y, m) {
        lemma_comp_reach_implies_reach(g, sx, sy, x - 1, y + 1, m);
        assert(reach_neighbour(g, sx, sy, x - 1, y + 1, x, y, m));
    } else if comp_neighbour(g, sx, sy, x, y - 1, x, y, m) {
        lemma_comp_reach_implies_reach(g, sx, sy, x, y - 1, m);
        assert(reach_neighbour(g, sx, sy, x, y - 1, x, y, m));
    } else if comp_neighbour(g, sx, sy, x, y + 1, x, y, m) {
        lemma_comp_reach_implies_reach(g, sx, sy, x, y + 1, m);
        assert(reach_neighbour(g, sx, sy, x, y + 1, x, y, m));
    } else if comp_neighbour(g, sx, sy, x + 1, y - 1, x, y, m) {
        lemma_comp_reach_implies_reach(g, sx, sy, x + 1, y - 1, m);
        assert(reach_neighbour(g, sx, sy, x + 1, y - 1, x, y, m));
    } else if comp_neighbour(g, sx, sy, x + 1, y, x, y, m) {
        lemma_comp_reach_implies_reach(g, sx, sy, x + 1, y, m);
        assert(reach_neighbour(g, sx, sy, x + 1, y, x, y, m));
    } else {
        lemma_comp_reach_implies_reach(g, sx, sy, x + 1, y + 1, m);
        assert(reach_neighbour(g, sx, sy, x + 1, y + 1, x, y, m));
    }
}

/// A cell of the boundary, or of the component, is flood-fill
/// reachable.
proof fn lemma_component_member_reachable(
    g: Seq<Seq<MinesweeperCellType>>,
    sx: int,
    sy: int,
    cx: int,
    cy: int,
    x: int,
    y: int,
)
    requires
        zero_hidden(g, sx, sy),
        in_component(g, sx, sy, cx, cy),
        is_adjacent(cx, cy, x, y),
        grid_in_bounds(g, x, y),
        g[x][y] is Hidden,
    ensures
        reachable(g, sx, sy, x, y),
{
    let n = choose|n: nat| comp_reach(g, sx, sy, cx, cy, n);
    lemma_comp_zero_hidden(g, sx, sy, cx, cy, n);
    lemma_comp_reach_implies_reach(g, sx, sy, cx, cy, n);
    assert(reach_neighbour(g, sx, sy, cx, cy, x, y, n));
    assert(reach_via(g, sx, sy, x, y, n));
    assert(reach(g, sx, sy, x, y, n + 1));
}

/// A zero-hidden cell adjacent to the component belongs to it.
proof fn lemma_adjacent_zero_hidden_in_component(
    g: Seq<Seq<MinesweeperCellType>>,
    sx: int,
    sy: int,
    x: int,
    y: int,
)
    requires
        zero_hidden(g, sx, sy),
        component_adjacent(g, sx, sy, x, y),
        zero_hidden(g, x, y),
    ensures
        in_component(g, sx, sy, x, y),
{
    if in_component(g, sx, sy, x - 1, y - 1) {
        lemma_component_step(g, sx, sy, x - 1, y - 1, x, y);
    } else if in_component(g, sx, sy, x - 1, y) {
        lemma_component_step(g, sx, sy, x - 1, y, x, y);
    } else if in_component(g, sx, sy, x - 1, y + 1) {
        lemma_component_step(g, sx, sy, x - 1, y + 1, x, y);
    } else if in_component(g, sx, sy, x, y - 1) {
        lemma_component_step(g, sx, sy, x, y - 1, x, y);
    } else if in_component(g, sx, sy, x, y + 1) {
        lemma_component_step(g, sx, sy, x, y + 1, x, y);
    } else if in_component(g, sx, sy, x + 1, y - 1) {
        lemma_component_step(g, sx, sy, x + 1, y - 1, x, y);
    } else if in_component(g, sx, sy, x + 1, y) {
        lemma_component_step(g, sx, sy, x + 1, y, x, y);
    } else {
        lemma_component_step(g, sx, sy, x + 1, y + 1, x, y);
    }
}

/// Extend the component by one step to an adjacent zero-hidden cell.
proof fn lemma_component_step(
    g: Seq<Seq<MinesweeperCellType>>,
    sx: int,
    sy: int,
    cx: int,
    cy: int,
    x: int,
    y: int,
)
    requires
        zero_hidden(g, sx, sy),
        in_component(g, sx, sy, cx, cy),
        is_adjacent(cx, cy, x, y),
        zero_hidden(g, x, y),
    ensures
        in_component(g, sx, sy, x, y),
{
    let n = choose|n: nat| comp_reach(g, sx, sy, cx, cy, n);
    lemma_comp_zero_hidden(g, sx, sy, cx, cy, n);
    assert(comp_neighbour(g, sx, sy, cx, cy, x, y, n));
    assert(comp_via(g, sx, sy, x, y, n));
    assert(comp_reach(g, sx, sy, x, y, n + 1));
}

/// A flood-fill reachable cell lies in the component or on its
/// boundary.
proof fn lemma_reach_implies_component_or_boundary(
    g: Seq<Seq<MinesweeperCellType>>,
    sx: int,
    sy: int,
    x: int,
    y: int,
    n: nat,
)
    requires
        zero_hidden(g, sx, sy),
        reach(g, sx, sy, x, y, n),
    ensures
        in_component(g, sx, sy, x, y) || in_boundary(g, sx, sy, x, y),
    decreases n, 0int,
{
    if n == 0 {
        assert(comp_reach(g, sx, sy, x, y, 0));
    } else {
        let m = (n - 1) as nat;
        if reach(g, sx, sy, x, y, m) {
            lemma_reach_implies_component_or_boundary(g, sx, sy, x, y, m);
        } else {
            assert(reach_via(g, sx, sy, x, y, m));
            if reach_neighbour(g, sx, sy, x - 1, y - 1, x, y, m) {
                lemma_boundary_extends(g, sx, sy, x - 1, y - 1, x, y, m);
            } else if reach_neighbour(g, sx, sy, x - 1, y, x, y, m) {
            lemma_boundary_extends(g, sx, sy, x - 1, y, x, y, m);
        } else if reach_neighbour(g, sx, sy, x - 1, y + 1, x, y, m) {
            lemma_boundary_extends(g, sx, sy, x - 1, y + 1, x, y, m);
        } else if reach_neighbour(g, sx, sy, x, y - 1, x, y, m) {
            lemma_boundary_extends(g, sx, sy, x, y - 1, x, y, m);
        } else if reach_neighbour(g, sx, sy, x, y + 1, x, y, m) {
            lemma_boundary_extends(g, sx, sy, x, y + 1, x, y, m);
        } else if reach_neighbour(g, sx, sy, x + 1, y - 1, x, y, m) {
            lemma_boundary_extends(g, sx, sy, x + 1, y - 1, x, y, m);
        } else if reach_neighbour(g, sx, sy, x + 1, y, x, y, m) {
            lemma_boundary_extends(g, sx, sy, x + 1, y, x, y, m);
            } else {
                lemma_boundary_extends(g, sx, sy, x + 1, y + 1, x, y, m);
            }
        }
    }
}

/// One flood-fill step from a reached cell lands in the component or
/// on its boundary.
proof fn lemma_boundary_extends(
    g: Seq<Seq<MinesweeperCellType>>,
    sx: int,
    sy: int,
    px: int,
    py: int,
    x: int,
    y: int,
    m: nat,
)
    requires
        zero_hidden(g, sx, sy),
        reach_neighbour(g, sx, sy, px, py, x, y, m),
    ensures
        in_component(g, sx, sy, x, y) || in_boundary(g, sx, sy, x, y),
    decreases m, 3int,
{
    lemma_reach_implies_component_or_boundary(g, sx, sy, px, py, m);
    // the stepping cell is zero-hidden, so it is in the component
    if in_boundary(g, sx, sy, px, py) {
        lemma_adjacent_zero_hidden_in_component(g, sx, sy, px, py);
    }
    assert(in_component(g, sx, sy, px, py));
    if zero_hidden(g, x, y) {
        lemma_component_step(g, sx, sy, px, py, x, y);
    } else {
        assert(component_adjacent(g, sx, sy, x, y));
    }
}

/// The flood-fill region of a start cell with no adjacent bomb is
/// exactly the 8-connected component of the start among hidden cells
/// with zero bomb-neighbours, together with the hidden cells adjacent
/// to that component.
pub proof fn lemma_region_is_component_with_boundary(
    g: Seq<Seq<MinesweeperCellType>>,
    sx: int,
    sy: int,
    x: int,
    y: int,
)
    requires
        zero_hidden(g, sx, sy),
    ensures
        reachable(g, sx, sy, x, y) <==> (in_component(g, sx, sy, x, y) || in_boundary(
            g,
            sx,
            sy,
            x,
            y,
        )),
{
    if reachable(g, sx, sy, x, y) {
        let n = choose|n: nat| reach(g, sx, sy, x, y, n);
        lemma_reach_implies_component_or_boundary(g, sx, sy, x, y, n);
    }
    if in_component(g, sx, sy, x, y) {
        let n = choose|n: nat| comp_reach(g, sx, sy, x, y, n);
        lemma_comp_reach_implies_reach(g, sx, sy, x, y, n);
        assert(reach(g, sx, sy, x, y, n));
    } else if in_boundary(g, sx, sy, x, y) {
        if in_component(g, sx, sy, x - 1, y - 1) {
            lemma_component_member_reachable(g, sx, sy, x - 1, y - 1, x, y);
        } else if in_component(g, sx, sy, x - 1, y) {
            lemma_component_member_reachable(g, sx, sy, x - 1, y, x, y);
        } else if in_component(g, sx, sy, x - 1, y + 1) {
            lemma_component_member_reachable(g, sx, sy, x - 1, y + 1, x, y);
        } else if in_component(g, sx, sy, x, y - 1) {
            lemma_component_member_reachable(g, sx, sy, x, y - 1, x, y);
        } else if in_component(g, sx, sy, x, y + 1) {
            lemma_component_member_reachable(g, sx, sy, x, y + 1, x, y);
        } else if in_component(g, sx, sy, x + 1, y - 1) {
            lemma_component_member_reachable(g, sx, sy, x + 1, y - 1, x, y);
        } else if in_component(g, sx, sy, x + 1, y) {
            lemma_component_member_reachable(g, sx, sy, x + 1, y, x, y);
        } else {
            lemma_component_member_reachable(g, sx, sy, x + 1, y + 1, x, y);
        }
    }
}

/// When the start is hidden, every reachable cell is hidden.
proof fn lemma_reach_hidden(
    g: Seq<Seq<MinesweeperCellType>>,
    sx: int,
    sy: int,
    x: int,
    y: int,
    n: nat,
)
    requires
        grid_in_bounds(g, sx, sy),
        g[sx][sy] is Hidden,
        reach(g, sx, sy, x, y, n),
    ensures
        grid_in_bounds(g, x, y),
        g[x][y] is Hidden,
    decreases n,
{
    if n == 0 {
    } else if reach(g, sx, sy, x, y, (n - 1) as nat) {
        lemma_reach_hidden(g, sx, sy, x, y, (n - 1) as nat);
    } else {
        let m = (n - 1) as nat;
        assert(reach_via(g, sx, sy, x, y, m));
        if reach_neighbour(g, sx, sy, x - 1, y - 1, x, y, m) {
        } else if reach_neighbour(g, sx, sy, x - 1, y, x, y, m) {
        } else if reach_neighbour(g, sx, sy, x - 1, y + 1, x, y, m) {
        } else if reach_neighbour(g, sx, sy, x, y - 1, x, y, m) {
        } else if reach_neighbour(g, sx, sy, x, y + 1, x, y, m) {
        } else if reach_neighbour(g, sx, sy, x + 1, y - 1, x, y, m) {
        } else if reach_neighbour(g, sx, sy, x + 1, y, x, y, m) {
        } else {
            assert(reach_neighbour(g, sx, sy, x + 1, y + 1, x, y, m));
        }
    }
}

/// After a flood fill whose start has no adjacent bomb, the cells that
/// changed are exactly the component of the start among zero-hidden
/// cells together with that component's hidden boundary.
pub proof fn lemma_reveal_post_region(
    g0: Seq<Seq<MinesweeperCellType>>,
    g1: Seq<Seq<MinesweeperCellType>>,
    sx: int,
    sy: int,
    n: int,
    x: int,
    y: int,
)
    requires
        zero_hidden(g0, sx, sy),
        reveal_post(g0, g1, sx, sy, n),
        grid_in_bounds(g0, x, y),
    ensures
        (g1[x][y] != g0[x][y]) <==> (in_component(g0, sx, sy, x, y) || in_boundary(
            g0,
            sx,
            sy,
            x,
            y,
        )),
{
    lemma_region_is_component_with_boundary(g0, sx, sy, x, y);
    if reachable(g0, sx, sy, x, y) {
        let k = choose|k: nat| reach(g0, sx, sy, x, y, k);
        lemma_reach_hidden(g0, sx, sy, x, y, k);
    }
}

/// Bomb-neighbour counts agree between two grids whose bombs agree.
proof fn lemma_bombs_adjacent_same(
    g0: Seq<Seq<MinesweeperCellType>>,
    g1: Seq<Seq<MinesweeperCellType>>,
    x: int,
    y: int,
)
    requires
        same_dims(g0, g1),
        forall|a: int, b: int|
            #![trigger grid_in_bounds(g0, a, b)]
            grid_in_bounds(g0, a, b) ==> (g1[a][b] is Bomb <==> g0[a][b] is Bomb),
    ensures
        bombs_adjacent(g1, x, y) == bombs_adjacent(g0, x, y),
{
    assert forall|a: int, b: int| #[trigger] bomb_at(g1, a, b) == bomb_at(g0, a, b) by {
        if 0 <= a < g0.len() {
            assert(g1[a].len() == g0[a].len());
            if grid_in_bounds(g0, a, b) {
                assert(g1[a][b] is Bomb <==> g0[a][b] is Bomb);
            }
        }
    }
}

/// How `cnt_col` changes when one cell of a column is overwritten.
proof fn lemma_cnt_col_update(
    c: Seq<MinesweeperCellType>,
    y: int,
    cell: MinesweeperCellType,
    f: spec_fn(MinesweeperCellType) -> bool,
)
    requires
        0 <= y < c.len(),
    ensures
        cnt_col(c.update(y, cell), f) == cnt_col(c, f) + (if f(cell) {
            1int
        } else {
            0int
        }) - (if f(c[y]) {
            1int
        } else {
            0int
        }),
    decreases c.len(),
{
    let c2 = c.update(y, cell);
    assert(c2.len() == c.len());
    if y == c.len() - 1 {
        assert(c2.drop_last() =~= c.drop_last());
        assert(c2.last() == cell);
    } else {
        assert(c2.drop_last() =~= c.drop_last().update(y, cell));
        lemma_cnt_col_update(c.drop_last(), y, cell, f);
        assert(c2.last() == c.last());
    }
}

/// How `cnt_grid` changes when one cell of the grid is overwritten.
proof fn lemma_cnt_grid_update(
    g: Seq<Seq<MinesweeperCellType>>,
    x: int,
    y: int,
    cell: MinesweeperCellType,
    f: spec_fn(MinesweeperCellType) -> bool,
)
    requires
        0 <= x < g.len(),
        0 <= y < g[x].len(),
    ensures
        cnt_grid(g.update(x, g[x].update(y, cell)), f) == cnt_grid(g, f) + (if f(cell) {
            1int
        } else {
            0int
        }) - (if f(g[x][y]) {
            1int
        } else {
            0int
        }),
    decreases g.len(),
{
    let g2 = g.update(x, g[x].update(y, cell));
    if x == g.len() - 1 {
        assert(g2.drop_last() =~= g.drop_last());
        assert(g2.last() == g[x].update(y, cell));
        lemma_cnt_col_update(g[x], y, cell, f);
    } else {
        assert(g2.drop_last() =~= g.drop_last().update(x, g[x].update(y, cell)));
        assert(g.drop_last()[x] == g[x]);
        lemma_cnt_grid_update(g.drop_last(), x, y, cell, f);
        assert(g2.last() == g.last());
    }
}

/// A grid of `w` columns of height `h` holds at most `w * h` cells
/// satisfying `f`.
proof fn lemma_cnt_grid_bound(
    g: Seq<Seq<MinesweeperCellType>>,
    h: int,
    f: spec_fn(MinesweeperCellType) -> bool,
)
    requires
        forall|x: int| 0 <= x < g.len() ==> #[trigger] g[x].len() == h,
    ensures
        cnt_grid(g, f) <= g.len() * h,
    decreases g.len(),
{
    if g.len() == 0 {
    } else {
        let n = g.len() as int;
        assert(forall|x: int|
            0 <= x < g.drop_last().len() ==> #[trigger] g.drop_last()[x].len() == h);
        lemma_cnt_grid_bound(g.drop_last(), h, f);
        lemma_cnt_col_bound(g.last(), f);
        assert(g.last().len() == h);
        assert((n - 1) * h + h == n * h) by (nonlinear_arith);
    }
}

/// A column of `n` cells holds at most `n` cells satisfying `f`.
proof fn lemma_cnt_col_bound(c: Seq<MinesweeperCellType>, f: spec_fn(MinesweeperCellType) -> bool)
    ensures
        cnt_col(c, f) <= c.len(),
    decreases c.len(),
{
    if c.len() == 0 {
    } else {
        lemma_cnt_col_bound(c.drop_last(), f);
    }
}

/// The dimensions of a real grid fit in `usize`, because its columns
/// are vectors.
proof fn lemma_dims_bounded(g: &MinesweeperGrid)
    ensures
        g@.len() <= usize::MAX,
        forall|x: int| 0 <= x < g@.len() ==> #[trigger] g@[x].len() <= usize::MAX,
{
    broadcast use vstd::std_specs::vec::axiom_spec_len;

    assert(vstd::std_specs::vec::spec_vec_len(&g.0) == g.0@.len());
    assert forall|x: int| 0 <= x < g@.len() implies #[trigger] g@[x].len() <= usize::MAX by {
        assert(g@[x] == g.0@[x]@);
        assert(vstd::std_specs::vec::spec_vec_len(&g.0@[x]) == g.0@[x]@.len());
    }
}

/// One entry of `get_neighbours`: an in-bounds neighbour of (x, y)
/// paired with a snapshot of its cell.
pub open spec fn neighbour_entry_ok(
    g: Seq<Seq<MinesweeperCellType>>,
    x: int,
    y: int,
    e: (MinesweeperCellType, (usize, usize)),
) -> bool {
    &&& grid_in_bounds(g, e.1.0 as int, e.1.1 as int)
    &&& is_adjacent(x, y, e.1.0 as int, e.1.1 as int)
    &&& e.0 == g[e.1.0 as int][e.1.1 as int]
}

/// The list `v` holds an entry for the in-bounds neighbour coordinate
/// (qx, qy), if there is one.
pub open spec fn neighbour_listed(
    g: Seq<Seq<MinesweeperCellType>>,
    qx: int,
    qy: int,
    v: Seq<(MinesweeperCellType, (usize, usize))>,
) -> bool {
    grid_in_bounds(g, qx, qy) ==> exists|i: int|
        #![trigger v[i]]
        0 <= i < v.len() && v[i].1.0 as int == qx && v[i].1.1 as int == qy
}

/// `neighbour_listed` for the neighbour slot `kk` of the 3-by-3 block
/// around (x, y), slots being numbered row by row.
pub open spec fn neighbour_slot_listed(
    g: Seq<Seq<MinesweeperCellType>>,
    x: int,
    y: int,
    kk: int,
    v: Seq<(MinesweeperCellType, (usize, usize))>,
) -> bool {
    neighbour_listed(g, x + kk / 3 - 1, y + kk % 3 - 1, v)
}

/// The slot of the 3-by-3 block around (x, y) that the entry's
/// coordinate occupies. Distinct coordinates sit in distinct slots, so
/// a list whose entries occupy strictly increasing slots holds no
/// coordinate twice.
pub open spec fn slot_of(x: int, y: int, e: (MinesweeperCellType, (usize, usize))) -> int {
    (e.1.0 as int - x + 1) * 3 + (e.1.1 as int - y + 1)
}

/// Relies on rand::random::<u64>, which draws a fresh value from the
/// thread-local generator. Nothing is promised of the result: callers
/// must be correct for every value.
#[verifier::external_body]
fn random_u64() -> u64 {
    rand::random::<u64>()
}

impl MinesweeperGrid {
    /// Create a grid of the given dimensions in which each cell is
    /// independently a `Bomb` with probability `bomb_per_mille` / 1000
    /// and `Hidden` otherwise. No cell starts revealed or exploded.
    pub fn new(width: usize, height: usize, bomb_per_mille: u64) -> (g: MinesweeperGrid)
        ensures
            g@.len() == width,
            forall|x: int| 0 <= x < width ==> #[trigger] g@[x].len() == height,
            grid_rect(g@),
            forall|x: int, y: int|
                grid_in_bounds(g@, x, y) ==> (#[trigger] g@[x][y]) is Hidden || g@[x][y] is Bomb,
            no_cell_revealed(g@),
            bomb_per_mille == 0 ==> forall|x: int, y: int|
                grid_in_bounds(g@, x, y) ==> (#[trigger] g@[x][y]) is Hidden,
            bomb_per_mille >= 1000 ==> forall|x: int, y: int|
                grid_in_bounds(g@, x, y) ==> (#[trigger] g@[x][y]) is Bomb,
    {
        let mut columns: Vec<Vec<MinesweeperCellType>> = Vec::new();
        let mut x: usize = 0;
        while x < width
            invariant
                x <= width,
                columns@.len() == x,
                forall|i: int| 0 <= i < x ==> (#[trigger] columns@[i])@.len() == height,
                forall|i: int, j: int|
                    0 <= i < x && 0 <= j < height ==> (#[trigger] columns@[i]@[j]) is Hidden
                        || columns@[i]@[j] is Bomb,
                bomb_per_mille == 0 ==> forall|i: int, j: int|
                    0 <= i < x && 0 <= j < height ==> (#[trigger] columns@[i]@[j]) is Hidden,
                bomb_per_mille >= 1000 ==> forall|i: int, j: int|
                    0 <= i < x && 0 <= j < height ==> (#[trigger] columns@[i]@[j]) is Bomb,
            decreases width - x,
        {
            let mut column: Vec<MinesweeperCellType> = Vec::new();
            let mut y: usize = 0;
            while y < height
                invariant
                    y <= height,
                    column@.len() == y,
                    forall|j: int|
                        0 <= j < y ==> (#[trigger] column@[j]) is Hidden || column@[j] is Bomb,
                    bomb_per_mille == 0 ==> forall|j: int|
                        0 <= j < y ==> (#[trigger] column@[j]) is Hidden,
                    bomb_per_mille >= 1000 ==> forall|j: int|
                        0 <= j < y ==> (#[trigger] column@[j]) is Bomb,
                decreases height - y,
            {
                let roll = random_u64() % 1000;
                if roll < bomb_per_mille {
                    column.push(MinesweeperCellType::Bomb);
                } else {
                    column.push(MinesweeperCellType::Hidden);
                }
                y = y + 1;
            }
            columns.push(column);
            x = x + 1;
        }
        let g = MinesweeperGrid(columns);
        proof {
            assert(forall|x: int| 0 <= x < width ==> g@[x] == g.0@[x]@);
        }
        g
    }

    /// The cell at (xpos, ypos), or `None` when the coordinate lies
    /// outside the grid.
    pub fn get_cell(&self, xpos: usize, ypos: usize) -> (r: Option<MinesweeperCellType>)
        ensures
            match r {
                Some(c) => grid_in_bounds(self@, xpos as int, ypos as int) && c
                    == self@[xpos as int][ypos as int],
                None => !grid_in_bounds(self@, xpos as int, ypos as int),
            },
    {
        if xpos < self.0.len() && ypos < self.0[xpos].len() {
            Some(self.0[xpos][ypos])
        } else {
            None
        }
    }

    /// Overwrite the cell at an in-bounds coordinate.
    fn set_cell(&mut self, xpos: usize, ypos: usize, cell: MinesweeperCellType)
        requires
            grid_in_bounds(old(self)@, xpos as int, ypos as int),
        ensures
            final(self)@ =~= old(self)@.update(
                xpos as int,
                old(self)@[xpos as int].update(ypos as int, cell),
            ),
    {
        self.0[xpos][ypos] = cell;
    }

    /// The number of bombs among the up-to-8 neighbours of (xpos, ypos).
    fn count_adjacent_bombs(&self, xpos: usize, ypos: usize) -> (r: u8)
        requires
            grid_in_bounds(self@, xpos as int, ypos as int),
        ensures
            r as int == bombs_adjacent(self@, xpos as int, ypos as int),
            r <= 8,
    {
        proof {
            lemma_dims_bounded(self);
        }
        let mut r: u8 = 0;
        if xpos > 0 {
            if ypos > 0 && self.is_bomb_at(xpos - 1, ypos - 1) {
                r = r + 1;
            }
            if self.is_bomb_at(xpos - 1, ypos) {
                r = r + 1;
            }
            if ypos < usize::MAX && self.is_bomb_at(xpos - 1, ypos + 1) {
                r = r + 1;
            }
        }
        if ypos > 0 && self.is_bomb_at(xpos, ypos - 1) {
            r = r + 1;
        }
        if ypos < usize::MAX && self.is_bomb_at(xpos, ypos + 1) {
            r = r + 1;
        }
        if xpos < usize::MAX {
            if ypos > 0 && self.is_bomb_at(xpos + 1, ypos - 1) {
                r = r + 1;
            }
            if self.is_bomb_at(xpos + 1, ypos) {
                r = r + 1;
            }
            if ypos < usize::MAX && self.is_bomb_at(xpos + 1, ypos + 1) {
                r = r + 1;
            }
        }
        r
    }

    /// Whether the in-range coordinate holds a bomb; used as the
    /// indicator of one `bombs_adjacent` summand.
    fn is_bomb_at(&self, x: usize, y: usize) -> (r: bool)
        ensures
            r == (bomb_at(self@, x as int, y as int) == 1),
    {
        match self.get_cell(x, y) {
            Some(c) => c == MinesweeperCellType::Bomb,
            None => false,
        }
    }

    /// The in-bounds cells among the up-to-8 neighbours of
    /// (xpos, ypos), each with its coordinate: exactly one entry per
    /// in-bounds neighbour.
    #[verifier::rlimit(100)]
    fn get_neighbours(&self, xpos: usize, ypos: usize) -> (r: Vec<
        (MinesweeperCellType, (usize, usize)),
    >)
        ensures
            forall|i: int|
                0 <= i < r@.len() ==> neighbour_entry_ok(
                    self@,
                    xpos as int,
                    ypos as int,
                    #[trigger] r@[i],
                ),
            forall|qx: int, qy: int|
                is_adjacent(xpos as int, ypos as int, qx, qy) ==> neighbour_listed(
                    self@,
                    qx,
                    qy,
                    r@,
                ),
            forall|i: int, j: int|
                #![trigger r@[i], r@[j]]
                0 <= i < j < r@.len() ==> !(r@[i].1.0 == r@[j].1.0 && r@[i].1.1 == r@[j].1.1),
            r@.len() <= 8,
    {
        proof {
            lemma_dims_bounded(self);
        }
        let mut r: Vec<(MinesweeperCellType, (usize, usize))> = Vec::new();
        let mut k: usize = 0;
        while k < 9
            invariant
                k <= 9,
                forall|i: int|
                    0 <= i < r@.len() ==> neighbour_entry_ok(
                        self@,
                        xpos as int,
                        ypos as int,
                        #[trigger] r@[i],
                    ),
                forall|kk: int|
                    0 <= kk < k && kk != 4 ==> #[trigger] neighbour_slot_listed(
                        self@,
                        xpos as int,
                        ypos as int,
                        kk,
                        r@,
                    ),
                self@.len() <= usize::MAX,
                forall|x: int| 0 <= x < self@.len() ==> #[trigger] self@[x].len() <= usize::MAX,
                forall|i: int|
                    0 <= i < r@.len() ==> #[trigger] slot_of(xpos as int, ypos as int, r@[i]) < k,
                forall|i: int, j: int|
                    #![trigger r@[i], r@[j]]
                    0 <= i < j < r@.len() ==> slot_of(xpos as int, ypos as int, r@[i]) < slot_of(
                        xpos as int,
                        ypos as int,
                        r@[j],
                    ),
                r@.len() <= (if k <= 4 {
                    k as int
                } else {
                    k as int - 1
                }),
            decreases 9 - k,
        {
            let ghost r_prev = r@;
            if k != 4 {
                let ox: usize = k / 3;
                let oy: usize = k % 3;
                let qx_opt: Option<usize> = if ox == 0 {
                    if xpos == 0 {
                        None
                    } else {
                        Some(xpos - 1)
                    }
                } else if ox == 1 {
                    Some(xpos)
                } else {
                    xpos.checked_add(1)
                };
                let qy_opt: Option<usize> = if oy == 0 {
                    if ypos == 0 {
                        None
                    } else {
                        Some(ypos - 1)
                    }
                } else if oy == 1 {
                    Some(ypos)
                } else {
                    ypos.checked_add(1)
                };
                if let (Some(qx), Some(qy)) = (qx_opt, qy_opt) {
                    if let Some(cell) = self.get_cell(qx, qy) {
                        r.push((cell, (qx, qy)));
                        proof {
                            assert(r@[r@.len() - 1] == (cell, (qx, qy)));
                        }
                    }
                }
                proof {
                    let ki = k as int;
                    let tx = xpos as int + ki / 3 - 1;
                    let ty = ypos as int + ki % 3 - 1;
                    if grid_in_bounds(self@, tx, ty) {
                        assert(r@.len() > 0 && r@[r@.len() - 1].1.0 as int == tx && r@[r@.len()
                            - 1].1.1 as int == ty);
                    }
                    assert(neighbour_slot_listed(self@, xpos as int, ypos as int, ki, r@));
                    assert(forall|i: int| 0 <= i < r_prev.len() ==> r@[i] == r_prev[i]);
                    assert forall|kk: int|
                        0 <= kk < k && kk != 4 implies neighbour_slot_listed(
                        self@,
                        xpos as int,
                        ypos as int,
                        kk,
                        r@,
                    ) by {
                        let txk = xpos as int + kk / 3 - 1;
                        let tyk = ypos as int + kk % 3 - 1;
                        assert(neighbour_slot_listed(self@, xpos as int, ypos as int, kk, r_prev));
                        if grid_in_bounds(self@, txk, tyk) {
                            let i = choose|i: int|
                                #![trigger r_prev[i]]
                                0 <= i < r_prev.len() && r_prev[i].1.0 as int == txk
                                    && r_prev[i].1.1 as int == tyk;
                            assert(r@[i] == r_prev[i]);
                        }
                    }
                }
            }
            proof {
                let ki = k as int;
                // a pushed entry occupies slot k of the 3-by-3 block,
                // above every slot already listed, so entries occupy
                // strictly increasing slots and no coordinate repeats
                assert(forall|i: int| 0 <= i < r_prev.len() ==> r@[i] == r_prev[i]);
                if r@.len() > r_prev.len() {
                    assert(r@[r@.len() - 1].1.0 as int == xpos as int + ki / 3 - 1);
                    assert(r@[r@.len() - 1].1.1 as int == ypos as int + ki % 3 - 1);
                    assert(ki == 3 * (ki / 3) + ki % 3);
                    assert(slot_of(xpos as int, ypos as int, r@[r@.len() - 1]) == ki);
                }
                assert forall|i: int|
                    0 <= i < r@.len() implies #[trigger] slot_of(xpos as int, ypos as int, r@[i])
                    < k + 1 by {
                    if i < r_prev.len() {
                        assert(r@[i] == r_prev[i]);
                        assert(slot_of(xpos as int, ypos as int, r_prev[i]) < k);
                    }
                }
            }
            k = k + 1;
        }
        proof {
            assert forall|qx: int, qy: int|
                is_adjacent(xpos as int, ypos as int, qx, qy) implies neighbour_listed(
                self@,
                qx,
                qy,
                r@,
            ) by {
                let dx = qx - xpos as int;
                let dy = qy - ypos as int;
                let kk = (dx + 1) * 3 + (dy + 1);
                assert(kk / 3 == dx + 1 && kk % 3 == dy + 1);
                assert(kk != 4);
                assert(neighbour_slot_listed(self@, xpos as int, ypos as int, kk, r@));
            }
            assert forall|i: int, j: int|
                #![trigger r@[i], r@[j]]
                0 <= i < j < r@.len() implies !(r@[i].1.0 == r@[j].1.0 && r@[i].1.1
                == r@[j].1.1) by {
                assert(slot_of(xpos as int, ypos as int, r@[i]) < slot_of(
                    xpos as int,
                    ypos as int,
                    r@[j],
                ));
            }
        }
        r
    }

    /// Flood fill from a hidden in-bounds cell: reveals exactly the
    /// connected flood-fill region of the start cell, each revealed
    /// cell carrying its bomb-neighbour count, and returns how many
    /// cells were revealed. Implemented with an explicit work stack so
    /// that the cascade cannot overflow the call stack on large grids.
    #[verifier::loop_isolation(false)]
    #[verifier::rlimit(60)]
    fn reveal_zone(&mut self, xpos: usize, ypos: usize) -> (r: usize)
        requires
            grid_rect(old(self)@),
            grid_in_bounds(old(self)@, xpos as int, ypos as int),
            old(self)@[xpos as int][ypos as int] is Hidden,
            old(self)@.len() * grid_height(old(self)@) <= usize::MAX,
        ensures
            grid_rect(final(self)@),
            reveal_post(old(self)@, final(self)@, xpos as int, ypos as int, r as int),
    {
        let ghost g0 = self@;
        let ghost sx = xpos as int;
        let ghost sy = ypos as int;
        let ghost h = grid_height(g0);
        let mut stack: Vec<(usize, usize)> = Vec::new();
        stack.push((xpos, ypos));
        let mut count: usize = 0;
        proof {
            assert(reach(g0, sx, sy, sx, sy, 0));
            assert(stack@[0] == (xpos, ypos));
        }
        while stack.len() != 0
            invariant
                same_dims(g0, self@),
                reveal_monotone(g0, self@, sx, sy),
                stack_ok(g0, sx, sy, stack@),
                frontier_ok(g0, self@, stack@),
                stack_has(stack@, sx, sy) || cell_changed(g0, self@, sx, sy),
                count as int == revealed_count(self@) - revealed_count(g0),
            decreases hidden_count(self@), stack@.len(),
        {
            let ghost st_prev = stack@;
            let ghost g_prev = self@;
            let top = stack.pop().unwrap();
            let cx = top.0;
            let cy = top.1;
            let ghost qcx = cx as int;
            let ghost qcy = cy as int;
            proof {
                assert(st_prev[st_prev.len() - 1] == top);
                assert(grid_in_bounds(g0, qcx, qcy));
                assert(grid_in_bounds(self@, qcx, qcy));
            }
            let cell = self.get_cell(cx, cy).unwrap();
            if cell == MinesweeperCellType::Hidden {
                proof {
                    assert(g0[qcx][qcy] is Hidden);
                    assert(reachable(g0, sx, sy, qcx, qcy));
                }
                let nb = self.count_adjacent_bombs(cx, cy);
                proof {
                    assert forall|a: int, b: int|
                        #![trigger grid_in_bounds(g0, a, b)]
                        grid_in_bounds(g0, a, b) implies (self@[a][b] is Bomb <==> g0[a][b]
                        is Bomb) by {
                        if self@[a][b] != g0[a][b] {
                            assert(g0[a][b] is Hidden);
                            assert(self@[a][b] is Revealed);
                        }
                    }
                    lemma_bombs_adjacent_same(g0, self@, qcx, qcy);
                    assert(nb as int == bombs_adjacent(g0, qcx, qcy));
                }
                let ghost g_mid = self@;
                self.set_cell(cx, cy, MinesweeperCellType::Revealed(nb));
                proof {
                    lemma_cnt_grid_update(
                        g_mid,
                        qcx,
                        qcy,
                        MinesweeperCellType::Revealed(nb),
                        revealed_pred(),
                    );
                    lemma_cnt_grid_update(
                        g_mid,
                        qcx,
                        qcy,
                        MinesweeperCellType::Revealed(nb),
                        hidden_pred(),
                    );
                    assert(revealed_count(self@) == revealed_count(g_mid) + 1);
                    assert(hidden_count(self@) == hidden_count(g_mid) - 1);
                    assert(forall|x: int|
                        0 <= x < g0.len() ==> #[trigger] self@[x].len() == h);
                    lemma_cnt_grid_bound(self@, h, revealed_pred());
                    assert(count as int + 1 <= usize::MAX as int);
                    // every changed cell is still a correctly revealed one
                    assert forall|a: int, b: int|
                        #![trigger grid_in_bounds(g0, a, b)]
                        grid_in_bounds(g0, a, b) && self@[a][b] != g0[a][b] implies {
                        &&& g0[a][b] is Hidden
                        &&& self@[a][b] == MinesweeperCellType::Revealed(
                            bombs_adjacent(g0, a, b) as u8,
                        )
                        &&& reachable(g0, sx, sy, a, b)
                    } by {
                        if a == qcx && b == qcy {
                        } else {
                            assert(self@[a][b] == g_mid[a][b]);
                        }
                    }
                }
                count = count + 1;
                if nb == 0 {
                    proof {
                        let n0 = choose|n: nat| reach(g0, sx, sy, qcx, qcy, n);
                        assert(reach(g0, sx, sy, qcx, qcy, n0));
                        assert forall|qx: int, qy: int|
                            is_adjacent(qcx, qcy, qx, qy) && grid_in_bounds(g0, qx, qy) && (
                            #[trigger] self@[qx][qy]) is Hidden implies (g0[qx][qy] is Hidden
                            && reachable(g0, sx, sy, qx, qy)) by {
                            assert(g0[qx][qy] is Hidden);
                            assert(reach_step(g0, qcx, qcy, qx, qy));
                            assert(reach_neighbour(g0, sx, sy, qcx, qcy, qx, qy, n0));
                            assert(reach_via(g0, sx, sy, qx, qy, n0));
                            assert(reach(g0, sx, sy, qx, qy, n0 + 1));
                        }
                    }
                    let nbrs = self.get_neighbours(cx, cy);
                    let ghost st_base = stack@;
                    let mut i: usize = 0;
                    while i < nbrs.len()
                        invariant
                            i <= nbrs.len(),
                            stack@.len() >= st_base.len(),
                            forall|j: int| 0 <= j < st_base.len() ==> stack@[j] == st_base[j],
                            stack_ok(g0, sx, sy, stack@),
                            forall|j: int|
                                0 <= j < i && (#[trigger] nbrs@[j]).0 is Hidden ==> stack_has(
                                    stack@,
                                    nbrs@[j].1.0 as int,
                                    nbrs@[j].1.1 as int,
                                ),
                        decreases nbrs@.len() - i,
                    {
                        let e = nbrs[i];
                        let ghost st_in = stack@;
                        if e.0 == MinesweeperCellType::Hidden {
                            proof {
                                assert(neighbour_entry_ok(self@, qcx, qcy, e));
                                assert(grid_in_bounds(g0, e.1.0 as int, e.1.1 as int));
                            }
                            stack.push(e.1);
                            proof {
                                assert(stack@[stack@.len() - 1] == e.1);
                            }
                        }
                        proof {
                            assert forall|j: int|
                                0 <= j < i + 1 && (#[trigger] nbrs@[j]).0 is Hidden implies
                                stack_has(stack@, nbrs@[j].1.0 as int, nbrs@[j].1.1 as int) by {
                                if j < i {
                                    lemma_stack_has_extend(
                                        st_in,
                                        stack@,
                                        nbrs@[j].1.0 as int,
                                        nbrs@[j].1.1 as int,
                                    );
                                } else {
                                    assert(stack@[stack@.len() - 1] == e.1);
                                }
                            }
                        }
                        i = i + 1;
                    }
                    proof {
                        // the frontier is restored: the centre's hidden
                        // neighbours are pending, other frontiers survived
                        assert forall|px: int, py: int, qx: int, qy: int|
                            #![trigger cell_changed(g0, self@, px, py), grid_in_bounds(g0, qx, qy)]
                            cell_changed(g0, self@, px, py) && bombs_adjacent(g0, px, py) == 0
                                && is_adjacent(px, py, qx, qy) && grid_in_bounds(g0, qx, qy)
                                && self@[qx][qy] is Hidden implies stack_has(stack@, qx, qy) by {
                            assert(!(qx == qcx && qy == qcy));
                            if px == qcx && py == qcy {
                                assert(grid_in_bounds(self@, qx, qy));
                                assert(neighbour_listed(self@, qx, qy, nbrs@));
                                let j = choose|j: int|
                                    #![trigger nbrs@[j]]
                                    0 <= j < nbrs@.len() && nbrs@[j].1.0 as int == qx
                                        && nbrs@[j].1.1 as int == qy;
                                assert(nbrs@[j].0 == self@[qx][qy]);
                                assert(stack_has(stack@, qx, qy));
                            } else {
                                assert(cell_changed(g0, g_prev, px, py));
                                assert(g_prev[qx][qy] is Hidden);
                                assert(stack_has(st_prev, qx, qy));
                                lemma_stack_has_pop(st_prev, qx, qy);
                                lemma_stack_has_extend(st_prev.drop_last(), stack@, qx, qy);
                            }
                        }
                        // the start cell is revealed or still pending
                        if qcx == sx && qcy == sy {
                            assert(cell_changed(g0, self@, sx, sy));
                        } else if stack_has(st_prev, sx, sy) {
                            lemma_stack_has_pop(st_prev, sx, sy);
                            lemma_stack_has_extend(st_prev.drop_last(), stack@, sx, sy);
                        } else {
                            assert(cell_changed(g0, g_prev, sx, sy));
                            assert(cell_changed(g0, self@, sx, sy));
                        }
                    }
                } else {
                    proof {
                        assert forall|px: int, py: int, qx: int, qy: int|
                            #![trigger cell_changed(g0, self@, px, py), grid_in_bounds(g0, qx, qy)]
                            cell_changed(g0, self@, px, py) && bombs_adjacent(g0, px, py) == 0
                                && is_adjacent(px, py, qx, qy) && grid_in_bounds(g0, qx, qy)
                                && self@[qx][qy] is Hidden implies stack_has(stack@, qx, qy) by {
                            assert(!(qx == qcx && qy == qcy));
                            assert(!(px == qcx && py == qcy));
                            assert(cell_changed(g0, g_prev, px, py));
                            assert(g_prev[qx][qy] is Hidden);
                            assert(stack_has(st_prev, qx, qy));
                            lemma_stack_has_pop(st_prev, qx, qy);
                        }
                        if qcx == sx && qcy == sy {
                            assert(cell_changed(g0, self@, sx, sy));
                        } else if stack_has(st_prev, sx, sy) {
                            lemma_stack_has_pop(st_prev, sx, sy);
                        } else {
                            assert(cell_changed(g0, self@, sx, sy));
                        }
                    }
                }
            } else {
                proof {
                    assert forall|px: int, py: int, qx: int, qy: int|
                        #![trigger cell_changed(g0, self@, px, py), grid_in_bounds(g0, qx, qy)]
                        cell_changed(g0, self@, px, py) && bombs_adjacent(g0, px, py) == 0
                            && is_adjacent(px, py, qx, qy) && grid_in_bounds(g0, qx, qy)
                            && self@[qx][qy] is Hidden implies stack_has(stack@, qx, qy) by {
                        assert(!(qx == qcx && qy == qcy));
                        assert(stack_has(st_prev, qx, qy));
                        lemma_stack_has_pop(st_prev, qx, qy);
                    }
                    if qcx == sx && qcy == sy {
                        assert(self@[sx][sy] != g0[sx][sy]);
                        assert(cell_changed(g0, self@, sx, sy));
                    } else if stack_has(st_prev, sx, sy) {
                        lemma_stack_has_pop(st_prev, sx, sy);
                    }
                }
            }
        }
        proof {
            assert(cell_changed(g0, self@, sx, sy));
            assert forall|x: int, y: int|
                #![trigger grid_in_bounds(g0, x, y)]
                grid_in_bounds(g0, x, y) implies self@[x][y] == (if reachable(g0, sx, sy, x, y) {
                MinesweeperCellType::Revealed(bombs_adjacent(g0, x, y) as u8)
            } else {
                g0[x][y]
            }) by {
                if reachable(g0, sx, sy, x, y) {
                    let n = choose|n: nat| reach(g0, sx, sy, x, y, n);
                    lemma_reach_changed(g0, self@, sx, sy, x, y, n);
                } else {
                    if self@[x][y] != g0[x][y] {
                        assert(reachable(g0, sx, sy, x, y));
                    }
                }
            }
            assert(grid_rect(self@));
        }
        count
    }

    /// Play a move at (xpos, ypos).
    ///
    /// - Out of bounds: `Err(Invalid)`, nothing changes.
    /// - Already revealed or exploded: `Err(NoOp)`, nothing changes.
    /// - Hidden: flood fill; `Ok` with the number of revealed cells.
    /// - Bomb on the very first move of the session: the cell is
    ///   treated as hidden and flood-filled — the first move never
    ///   loses.
    /// - Bomb otherwise: the cell explodes and the game is lost;
    ///   nothing is revealed by this call.
    pub fn discover(&mut self, xpos: usize, ypos: usize) -> (r: Result<usize, Outcome>)
        requires
            grid_rect(old(self)@),
            old(self)@.len() * grid_height(old(self)@) <= usize::MAX,
        ensures
            grid_rect(final(self)@),
            same_dims(old(self)@, final(self)@),
            r is Ok <==> (grid_in_bounds(old(self)@, xpos as int, ypos as int) && (old(
                self,
            )@[xpos as int][ypos as int] is Hidden || (old(self)@[xpos as int][ypos as int] is Bomb
                && no_cell_revealed(old(self)@)))),
            !grid_in_bounds(old(self)@, xpos as int, ypos as int) ==> r == Err::<usize, Outcome>(
                Outcome::Invalid,
            ) && final(self)@ == old(self)@,
            grid_in_bounds(old(self)@, xpos as int, ypos as int) && (old(
                self,
            )@[xpos as int][ypos as int] is Revealed || old(self)@[xpos as int][ypos as int]
                is Exploded) ==> r == Err::<usize, Outcome>(Outcome::NoOp) && final(self)@ == old(
                self,
            )@,
            grid_in_bounds(old(self)@, xpos as int, ypos as int) && old(
                self,
            )@[xpos as int][ypos as int] is Hidden ==> reveal_post(
                old(self)@,
                final(self)@,
                xpos as int,
                ypos as int,
                r->Ok_0 as int,
            ),
            grid_in_bounds(old(self)@, xpos as int, ypos as int) && old(
                self,
            )@[xpos as int][ypos as int] is Bomb && no_cell_revealed(old(self)@) ==> reveal_post(
                old(self)@.update(
                    xpos as int,
                    old(self)@[xpos as int].update(ypos as int, MinesweeperCellType::Hidden),
                ),
                final(self)@,
                xpos as int,
                ypos as int,
                r->Ok_0 as int,
            ),
            grid_in_bounds(old(self)@, xpos as int, ypos as int) && old(
                self,
            )@[xpos as int][ypos as int] is Bomb && !no_cell_revealed(old(self)@) ==> r == Err::<
                usize,
                Outcome,
            >(Outcome::Lost) && final(self)@ == old(self)@.update(
                xpos as int,
                old(self)@[xpos as int].update(ypos as int, MinesweeperCellType::Exploded),
            ),
            no_cell_revealed(old(self)@) ==> r != Err::<usize, Outcome>(Outcome::Lost),
    {
        let first_attempt = self.is_first_move();
        match self.get_cell(xpos, ypos) {
            None => Err(Outcome::Invalid),
            Some(MinesweeperCellType::Hidden) => Ok(self.reveal_zone(xpos, ypos)),
            Some(MinesweeperCellType::Bomb) => {
                if first_attempt {
                    self.set_cell(xpos, ypos, MinesweeperCellType::Hidden);
                    proof {
                        assert(grid_rect(self@));
                        assert(grid_height(self@) == grid_height(old(self)@));
                    }
                    Ok(self.reveal_zone(xpos, ypos))
                } else {
                    self.set_cell(xpos, ypos, MinesweeperCellType::Exploded);
                    Err(Outcome::Lost)
                }
            },
            Some(MinesweeperCellType::Exploded) => Err(Outcome::NoOp),
            Some(MinesweeperCellType::Revealed(_)) => Err(Outcome::NoOp),
        }
    }

    /// True iff no cell of the grid has been revealed yet.
    pub fn is_first_move(&self) -> (r: bool)
        ensures
            r == no_cell_revealed(self@),
    {
        let mut x: usize = 0;
        while x < self.0.len()
            invariant
                x <= self.0.len(),
                forall|i: int, j: int|
                    0 <= i < x && 0 <= j < self@[i].len() ==> !(#[trigger] self@[i][j] is Revealed),
            decreases self.0.len() - x,
        {
            let mut y: usize = 0;
            while y < self.0[x].len()
                invariant
                    x < self.0.len(),
                    y <= self@[x as int].len(),
                    forall|j: int| 0 <= j < y ==> !(#[trigger] self@[x as int][j] is Revealed),
                decreases self@[x as int].len() - y,
            {
                if let MinesweeperCellType::Revealed(_) = self.0[x][y] {
                    return false;
                }
                y = y + 1;
            }
            x = x + 1;
        }
        true
    }
}

} // verus!

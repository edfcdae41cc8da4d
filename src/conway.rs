//! The simulation engine: cells, the padded grid, neighbour counting and the
//! synchronous update rule.
//!
//! A grid asked for with `R` rows and `C` columns holds `(R + 2) x (C + 2)`
//! cells. The outer ring of that padded grid is a border that stays DEAD for
//! the life of the grid, so every interior cell has all eight neighbours.
use vstd::prelude::*;

verus! {

/// Life state of one cell.
#[derive(Copy, Clone, PartialEq, Eq, Structural, Debug)]
pub enum STATE {
    ALIVE,
    DEAD,
}

/// One grid position: its coordinates in the padded grid, its state, and the
/// number of consecutive generations it has been alive.
#[derive(Copy, Clone, Debug)]
pub struct Cell {
    /// Row of the cell in the padded grid.
    pub row_pos_: usize,
    /// Column of the cell in the padded grid.
    pub col_pos_: usize,
    /// Current state of the cell.
    pub state_: STATE,
    /// Number of consecutive generations the cell has been alive (saturating).
    pub ticks_alive_: u32,
}

/// Whole game state: one generation of the padded grid.
pub struct GridWorld {
    /// Generation index given by the caller of the update.
    pub ticks_: u32,
    /// Number of rows of the padded grid (requested rows + 2).
    pub rows_: usize,
    /// Number of columns of the padded grid (requested columns + 2).
    pub cols_: usize,
    /// The cells, indexed `[row][col]`.
    pub grid_: Vec<Vec<Cell>>,
}

/// A coordinate that is not inside the border of the grid.
#[derive(Copy, Clone, PartialEq, Eq, Structural, Debug)]
pub enum GridError {
    OutOfRange { row: usize, col: usize },
}

/// `(r, c)` lies strictly inside the border of a `rows x cols` padded grid.
pub open spec fn is_interior(rows: int, cols: int, r: int, c: int) -> bool {
    1 <= r < rows - 1 && 1 <= c < cols - 1
}

/// 1 when the cell at `(r, c)` is alive, else 0.
pub open spec fn alive_at(g: Seq<Seq<Cell>>, r: int, c: int) -> int {
    if g[r][c].state_ == STATE::ALIVE { 1 } else { 0 }
}

/// Number of alive cells among the eight Moore neighbours of `(r, c)`.
pub open spec fn live_neighbors(g: Seq<Seq<Cell>>, r: int, c: int) -> int {
    alive_at(g, r - 1, c - 1) + alive_at(g, r - 1, c) + alive_at(g, r - 1, c + 1)
        + alive_at(g, r, c - 1) + alive_at(g, r, c + 1)
        + alive_at(g, r + 1, c - 1) + alive_at(g, r + 1, c) + alive_at(g, r + 1, c + 1)
}

/// Well-formed cell model: at least 3 x 3, rectangular, each cell knows its
/// own coordinates, the border is DEAD, and every DEAD cell has a zero streak.
pub open spec fn cells_wf(g: Seq<Seq<Cell>>) -> bool {
    &&& g.len() >= 3
    &&& g[0].len() >= 3
    &&& forall|r: int| 0 <= r < g.len() ==> (#[trigger] g[r]).len() == g[0].len()
    &&& forall|r: int, c: int|
        0 <= r < g.len() && 0 <= c < g[0].len() ==> {
            &&& (#[trigger] g[r][c]).row_pos_ == r
            &&& g[r][c].col_pos_ == c
            &&& !is_interior(g.len() as int, g[0].len() as int, r, c) ==> g[r][c].state_
                == STATE::DEAD
            &&& g[r][c].state_ == STATE::DEAD ==> g[r][c].ticks_alive_ == 0
        }
}

/// The streak counter after one more generation alive; it stops at `u32::MAX`.
pub open spec fn inc_ticks(t: u32) -> u32 {
    if t < u32::MAX { (t + 1) as u32 } else { t }
}

/// The rule of the game for one cell with `n` live neighbours: a live cell
/// with 2 or 3 stays alive and extends its streak, a dead cell with exactly 3
/// is born with a streak of 1, any other cell is DEAD with a streak of 0.
pub open spec fn next_cell(cell: Cell, n: int) -> Cell {
    if cell.state_ == STATE::ALIVE && (n == 2 || n == 3) {
        Cell { state_: STATE::ALIVE, ticks_alive_: inc_ticks(cell.ticks_alive_), ..cell }
    } else if cell.state_ == STATE::DEAD && n == 3 {
        Cell { state_: STATE::ALIVE, ticks_alive_: 1, ..cell }
    } else {
        Cell { state_: STATE::DEAD, ticks_alive_: 0, ..cell }
    }
}

/// One generation: every interior cell is rewritten from the old grid alone,
/// the border is kept.
pub open spec fn step(g: Seq<Seq<Cell>>) -> Seq<Seq<Cell>> {
    Seq::new(
        g.len(),
        |r: int|
            Seq::new(
                g[r].len(),
                |c: int|
                    if is_interior(g.len() as int, g[0].len() as int, r, c) {
                        next_cell(g[r][c], live_neighbors(g, r, c))
                    } else {
                        g[r][c]
                    },
            ),
    )
}

/// `k` generations in a row.
pub open spec fn steps(g: Seq<Seq<Cell>>, k: nat) -> Seq<Seq<Cell>>
    decreases k,
{
    if k == 0 {
        g
    } else {
        step(steps(g, (k - 1) as nat))
    }
}

/// A cell as the constructors make it: streak 0, ALIVE exactly when `alive`.
pub open spec fn fresh_cell(r: int, c: int, alive: bool) -> Cell {
    Cell {
        row_pos_: r as usize,
        col_pos_: c as usize,
        state_: if alive { STATE::ALIVE } else { STATE::DEAD },
        ticks_alive_: 0,
    }
}

/// The default seed: the interior cells of padded column 2. The border rows
/// are left out of it, so that the border stays DEAD.
pub open spec fn default_seed(rows: int, cols: int, r: int, c: int) -> bool {
    c == 2 && is_interior(rows, cols, r, c)
}

/// The cells of a fresh `rows x cols` padded grid with the default seed.
pub open spec fn stripe_cells(rows: int, cols: int) -> Seq<Seq<Cell>> {
    Seq::new(
        rows as nat,
        |r: int| Seq::new(cols as nat, |c: int| fresh_cell(r, c, default_seed(rows, cols, r, c))),
    )
}

/// `(r, c)` is one of the coordinates of `seed`.
pub open spec fn in_seed(seed: Seq<(usize, usize)>, r: int, c: int) -> bool {
    exists|i: int| 0 <= i < seed.len() && seed[i].0 == r && seed[i].1 == c
}

/// Every coordinate of `seed` is interior to a `rows x cols` padded grid.
pub open spec fn seed_in_range(rows: int, cols: int, seed: Seq<(usize, usize)>) -> bool {
    forall|i: int| 0 <= i < seed.len() ==> is_interior(rows, cols, #[trigger] seed[i].0 as int, seed[i].1 as int)
}

/// The cells of a fresh `rows x cols` padded grid whose alive cells are those
/// listed in `seed`.
pub open spec fn seeded_cells(rows: int, cols: int, seed: Seq<(usize, usize)>) -> Seq<Seq<Cell>> {
    Seq::new(
        rows as nat,
        |r: int| Seq::new(cols as nat, |c: int| fresh_cell(r, c, in_seed(seed, r, c))),
    )
}

impl View for GridWorld {
    type V = Seq<Seq<Cell>>;

    open spec fn view(&self) -> Seq<Seq<Cell>> {
        self.grid_@.map_values(|row: Vec<Cell>| row@)
    }
}

impl GridWorld {
    /// The grid is well formed and its recorded dimensions match its cells.
    pub open spec fn wf(&self) -> bool {
        &&& self.grid_@.len() == self.rows_
        &&& cells_wf(self@)
        &&& self@[0].len() == self.cols_
    }

    /// Builds a grid of `num_rows x num_cols` interior cells inside a DEAD
    /// border, all streaks 0, seeded with the default pattern: every interior
    /// cell of padded column 2 is ALIVE.
    pub fn new(num_rows: usize, num_cols: usize) -> (r: GridWorld)
        requires
            num_rows > 0,
            num_cols > 0,
            num_rows + 2 <= usize::MAX,
            num_cols + 2 <= usize::MAX,
        ensures
            r.wf(),
            r.rows_ == num_rows + 2,
            r.cols_ == num_cols + 2,
            r.ticks_ == 0,
            r@ == stripe_cells(num_rows + 2, num_cols + 2),
    {
        let rows: usize = num_rows + 2;
        let cols: usize = num_cols + 2;
        let ghost target = stripe_cells(rows as int, cols as int);
        let mut collection_of_cells: Vec<Vec<Cell>> = Vec::new();
        let mut row: usize = 0;
        while row < rows
            invariant
                rows == num_rows + 2,
                cols == num_cols + 2,
                target == stripe_cells(rows as int, cols as int),
                row <= rows,
                collection_of_cells@.len() == row,
                forall|i: int| 0 <= i < row ==> (#[trigger] collection_of_cells@[i])@ == target[i],
            decreases rows - row,
        {
            let mut row_cells: Vec<Cell> = Vec::new();
            let mut col: usize = 0;
            while col < cols
                invariant
                    rows == num_rows + 2,
                    cols == num_cols + 2,
                    target == stripe_cells(rows as int, cols as int),
                    row < rows,
                    col <= cols,
                    row_cells@.len() == col,
                    forall|j: int| 0 <= j < col ==> #[trigger] row_cells@[j] == target[row as int][j],
                decreases cols - col,
            {
                let alive: bool = col == 2 && 1 <= row && row < rows - 1 && col < cols - 1;
                let state = if alive { STATE::ALIVE } else { STATE::DEAD };
                row_cells.push(Cell { row_pos_: row, col_pos_: col, state_: state, ticks_alive_: 0 });
                col += 1;
            }
            assert(row_cells@ =~= target[row as int]);
            collection_of_cells.push(row_cells);
            row += 1;
        }
        let r = GridWorld { ticks_: 0, rows_: rows, cols_: cols, grid_: collection_of_cells };
        assert(r@ =~= target);
        assert(r@[0].len() == cols);
        r
    }

    /// Builds a grid of `num_rows x num_cols` interior cells inside a DEAD
    /// border, all streaks 0, whose ALIVE cells are exactly those listed in
    /// `alive` (coordinates of the padded grid, `(row, col)`). Fails with
    /// `OutOfRange`, naming the first such coordinate, when one of them is not
    /// interior.
    pub fn with_seed(num_rows: usize, num_cols: usize, alive: &Vec<(usize, usize)>) -> (r: Result<
        GridWorld,
        GridError,
    >)
        requires
            num_rows > 0,
            num_cols > 0,
            num_rows + 2 <= usize::MAX,
            num_cols + 2 <= usize::MAX,
        ensures
            r is Ok <==> seed_in_range(num_rows + 2, num_cols + 2, alive@),
            r matches Ok(g) ==> {
                &&& g.wf()
                &&& g.rows_ == num_rows + 2
                &&& g.cols_ == num_cols + 2
                &&& g.ticks_ == 0
                &&& g@ == seeded_cells(num_rows + 2, num_cols + 2, alive@)
            },
            r matches Err(e) ==> exists|i: int|
                0 <= i < alive@.len() && !is_interior(
                    num_rows + 2,
                    num_cols + 2,
                    alive@[i].0 as int,
                    alive@[i].1 as int,
                ) && seed_in_range(num_rows + 2, num_cols + 2, alive@.take(i)) && e == (
                GridError::OutOfRange { row: alive@[i].0, col: alive@[i].1 }),
    {
        let rows: usize = num_rows + 2;
        let cols: usize = num_cols + 2;
        let mut k: usize = 0;
        while k < alive.len()
            invariant
                rows == num_rows + 2,
                cols == num_cols + 2,
                k <= alive@.len(),
                seed_in_range(rows as int, cols as int, alive@.take(k as int)),
            decreases alive@.len() - k,
        {
            let (sr, sc) = alive[k];
            if !(1 <= sr && sr < rows - 1 && 1 <= sc && sc < cols - 1) {
                return Err(GridError::OutOfRange { row: sr, col: sc });
            }
            assert(alive@.take(k + 1) =~= alive@.take(k as int).push(alive@[k as int]));
            k += 1;
        }
        assert(alive@.take(k as int) =~= alive@);
        let ghost target = seeded_cells(rows as int, cols as int, alive@);
        let mut collection_of_cells: Vec<Vec<Cell>> = Vec::new();
        let mut row: usize = 0;
        while row < rows
            invariant
                rows == num_rows + 2,
                cols == num_cols + 2,
                target == seeded_cells(rows as int, cols as int, alive@),
                row <= rows,
                collection_of_cells@.len() == row,
                forall|i: int| 0 <= i < row ==> (#[trigger] collection_of_cells@[i])@ == target[i],
            decreases rows - row,
        {
            let mut row_cells: Vec<Cell> = Vec::new();
            let mut col: usize = 0;
            while col < cols
                invariant
                    rows == num_rows + 2,
                    cols == num_cols + 2,
                    target == seeded_cells(rows as int, cols as int, alive@),
                    row < rows,
                    col <= cols,
                    row_cells@.len() == col,
                    forall|j: int| 0 <= j < col ==> #[trigger] row_cells@[j] == target[row as int][j],
                decreases cols - col,
            {
                let state = if seed_contains(alive, row, col) {
                    STATE::ALIVE
                } else {
                    STATE::DEAD
                };
                row_cells.push(Cell { row_pos_: row, col_pos_: col, state_: state, ticks_alive_: 0 });
                col += 1;
            }
            assert(row_cells@ =~= target[row as int]);
            collection_of_cells.push(row_cells);
            row += 1;
        }
        let g = GridWorld { ticks_: 0, rows_: rows, cols_: cols, grid_: collection_of_cells };
        assert(g@ =~= target);
        assert(g@[0].len() == cols);
        assert forall|r: int, c: int|
            0 <= r < rows && 0 <= c < cols && !is_interior(rows as int, cols as int, r, c)
            implies g@[r][c].state_ == STATE::DEAD by {
            if in_seed(alive@, r, c) {
                let i = choose|i: int| 0 <= i < alive@.len() && alive@[i].0 == r && alive@[i].1 == c;
                assert(is_interior(rows as int, cols as int, alive@[i].0 as int, alive@[i].1 as int));
            }
        }
        Ok(g)
    }
}

/// `(row, col)` is listed in `seed`.
fn seed_contains(seed: &Vec<(usize, usize)>, row: usize, col: usize) -> (b: bool)
    ensures
        b == in_seed(seed@, row as int, col as int),
{
    let mut i: usize = 0;
    while i < seed.len()
        invariant
            i <= seed@.len(),
            forall|j: int| 0 <= j < i ==> !(seed@[j].0 == row && seed@[j].1 == col),
        decreases seed@.len() - i,
    {
        let (sr, sc) = seed[i];
        if sr == row && sc == col {
            return true;
        }
        i += 1;
    }
    false
}

/// Like `get_live_neighbor_count`, for any coordinate: a coordinate on or
/// beyond the border is reported as `OutOfRange` instead of being counted.
pub fn checked_live_neighbor_count(x_coord: usize, y_coord: usize, state: &GridWorld) -> (r: Result<
    usize,
    GridError,
>)
    requires
        state.wf(),
    ensures
        is_interior(state.rows_ as int, state.cols_ as int, y_coord as int, x_coord as int) ==> r
            == Ok::<usize, GridError>(live_neighbors(state@, y_coord as int, x_coord as int) as usize),
        !is_interior(state.rows_ as int, state.cols_ as int, y_coord as int, x_coord as int) ==> r
            == Err::<usize, GridError>(GridError::OutOfRange { row: y_coord, col: x_coord }),
{
    if 1 <= y_coord && y_coord < state.rows_ - 1 && 1 <= x_coord && x_coord < state.cols_ - 1 {
        Ok(get_live_neighbor_count(x_coord, y_coord, state))
    } else {
        Err(GridError::OutOfRange { row: y_coord, col: x_coord })
    }
}

/// Returns the number of live neighbours of the interior cell in column
/// `x_coord` and row `y_coord`.
pub fn get_live_neighbor_count(x_coord: usize, y_coord: usize, state: &GridWorld) -> (r: usize)
    requires
        state.wf(),
        is_interior(state.rows_ as int, state.cols_ as int, y_coord as int, x_coord as int),
    ensures
        r == live_neighbors(state@, y_coord as int, x_coord as int),
        r <= 8,
{
    let g = &state.grid_;
    let ghost m = state@;
    assert(m[y_coord - 1] == g@[y_coord - 1]@);
    assert(m[y_coord as int] == g@[y_coord as int]@);
    assert(m[y_coord + 1] == g@[y_coord + 1]@);
    let above = &g[y_coord - 1];
    let here = &g[y_coord];
    let below = &g[y_coord + 1];
    let mut count: usize = 0;
    if above[x_coord - 1].state_ == STATE::ALIVE {
        count += 1;
    }
    if above[x_coord].state_ == STATE::ALIVE {
        count += 1;
    }
    if above[x_coord + 1].state_ == STATE::ALIVE {
        count += 1;
    }
    if here[x_coord - 1].state_ == STATE::ALIVE {
        count += 1;
    }
    if here[x_coord + 1].state_ == STATE::ALIVE {
        count += 1;
    }
    if below[x_coord - 1].state_ == STATE::ALIVE {
        count += 1;
    }
    if below[x_coord].state_ == STATE::ALIVE {
        count += 1;
    }
    if below[x_coord + 1].state_ == STATE::ALIVE {
        count += 1;
    }
    count
}

/// One generation keeps a grid well formed and its dimensions.
pub proof fn lemma_step_wf(g: Seq<Seq<Cell>>)
    requires
        cells_wf(g),
    ensures
        cells_wf(step(g)),
        step(g).len() == g.len(),
        step(g)[0].len() == g[0].len(),
{
    let h = step(g);
    assert(h[0].len() == g[0].len());
    assert forall|r: int| 0 <= r < h.len() implies (#[trigger] h[r]).len() == h[0].len() by {
        assert(g[r].len() == g[0].len());
    }
    assert forall|r: int, c: int| 0 <= r < h.len() && 0 <= c < h[0].len() implies {
        &&& (#[trigger] h[r][c]).row_pos_ == r
        &&& h[r][c].col_pos_ == c
        &&& !is_interior(h.len() as int, h[0].len() as int, r, c) ==> h[r][c].state_
            == STATE::DEAD
        &&& h[r][c].state_ == STATE::DEAD ==> h[r][c].ticks_alive_ == 0
    } by {
        assert(g[r].len() == g[0].len());
        assert(g[r][c].row_pos_ == r);
    }
}

/// Applies the rule of the game to an interior cell of `state`.
fn get_updated_cell(cell: &Cell, state: &GridWorld) -> (r: Cell)
    requires
        state.wf(),
        is_interior(
            state.rows_ as int,
            state.cols_ as int,
            cell.row_pos_ as int,
            cell.col_pos_ as int,
        ),
    ensures
        r == next_cell(*cell, live_neighbors(state@, cell.row_pos_ as int, cell.col_pos_ as int)),
{
    let is_cell_alive: bool = cell.state_ == STATE::ALIVE;
    let live_neighbor_count: usize = get_live_neighbor_count(cell.col_pos_, cell.row_pos_, state);
    if is_cell_alive && (live_neighbor_count == 2 || live_neighbor_count == 3) {
        let ticks_alive: u32 = if cell.ticks_alive_ < u32::MAX {
            cell.ticks_alive_ + 1
        } else {
            cell.ticks_alive_
        };
        Cell {
            row_pos_: cell.row_pos_,
            col_pos_: cell.col_pos_,
            state_: STATE::ALIVE,
            ticks_alive_: ticks_alive,
        }
    } else if !is_cell_alive && live_neighbor_count == 3 {
        Cell { row_pos_: cell.row_pos_, col_pos_: cell.col_pos_, state_: STATE::ALIVE, ticks_alive_: 1 }
    } else {
        Cell { row_pos_: cell.row_pos_, col_pos_: cell.col_pos_, state_: STATE::DEAD, ticks_alive_: 0 }
    }
}

/// Computes the next generation of `state` into a new grid whose generation
/// index is `gen`. Every interior cell is computed from `state` alone; the
/// border is copied.
pub fn update(state: &GridWorld, gen: u32) -> (r: GridWorld)
    requires
        state.wf(),
    ensures
        r.wf(),
        r.rows_ == state.rows_,
        r.cols_ == state.cols_,
        r.ticks_ == gen,
        r@ == step(state@),
{
    let ghost next = step(state@);
    let rows = state.rows_;
    let cols = state.cols_;
    let mut updated_cells: Vec<Vec<Cell>> = Vec::new();
    let mut row: usize = 0;
    while row < rows
        invariant
            state.wf(),
            rows == state.rows_,
            cols == state.cols_,
            next == step(state@),
            row <= rows,
            updated_cells@.len() == row,
            forall|i: int| 0 <= i < row ==> (#[trigger] updated_cells@[i])@ == next[i],
        decreases rows - row,
    {
        let ghost m = state@;
        assert(m[row as int] == state.grid_@[row as int]@);
        assert(m[row as int].len() == cols);
        let mut new_row: Vec<Cell> = Vec::new();
        let mut col: usize = 0;
        while col < cols
            invariant
                state.wf(),
                rows == state.rows_,
                cols == state.cols_,
                m == state@,
                next == step(state@),
                row < rows,
                col <= cols,
                m[row as int] == state.grid_@[row as int]@,
                m[row as int].len() == cols,
                new_row@.len() == col,
                forall|j: int| 0 <= j < col ==> #[trigger] new_row@[j] == next[row as int][j],
            decreases cols - col,
        {
            let cell: Cell = state.grid_[row][col];
            assert(cell == m[row as int][col as int]);
            if 1 <= row && row < rows - 1 && 1 <= col && col < cols - 1 {
                let updated = get_updated_cell(&cell, state);
                new_row.push(updated);
            } else {
                new_row.push(cell);
            }
            col += 1;
        }
        assert(new_row@ =~= next[row as int]);
        updated_cells.push(new_row);
        row += 1;
    }
    let r = GridWorld { ticks_: gen, rows_: rows, cols_: cols, grid_: updated_cells };
    assert(r@ =~= next);
    proof {
        lemma_step_wf(state@);
    }
    r
}

/// `p` comes strictly before `q` in row-major order.
pub open spec fn row_major_before(p: (usize, usize), q: (usize, usize)) -> bool {
    p.0 < q.0 || (p.0 == q.0 && p.1 < q.1)
}

/// The coordinates `(row, col)` of the ALIVE interior cells of `state`, in
/// row-major order: what a renderer needs to draw one generation.
pub fn live_cells(state: &GridWorld) -> (r: Vec<(usize, usize)>)
    requires
        state.wf(),
    ensures
        forall|k: int| 0 <= k < r@.len() ==> {
            &&& is_interior(state.rows_ as int, state.cols_ as int, (#[trigger] r@[k]).0 as int, r@[k].1 as int)
            &&& state@[r@[k].0 as int][r@[k].1 as int].state_ == STATE::ALIVE
        },
        forall|i: int, j: int|
            is_interior(state.rows_ as int, state.cols_ as int, i, j) && (#[trigger] state@[i][j]).state_
                == STATE::ALIVE ==> exists|k: int| 0 <= k < r@.len() && r@[k] == (i as usize, j as usize),
        forall|a: int, b: int| 0 <= a < b < r@.len() ==> row_major_before(#[trigger] r@[a], #[trigger] r@[b]),
{
    let rows = state.rows_;
    let cols = state.cols_;
    let ghost m = state@;
    let mut out: Vec<(usize, usize)> = Vec::new();
    let mut row: usize = 1;
    while row < rows - 1
        invariant
            state.wf(),
            m == state@,
            rows == state.rows_,
            cols == state.cols_,
            1 <= row <= rows - 1,
            forall|k: int| 0 <= k < out@.len() ==> {
                &&& is_interior(rows as int, cols as int, (#[trigger] out@[k]).0 as int, out@[k].1 as int)
                &&& m[out@[k].0 as int][out@[k].1 as int].state_ == STATE::ALIVE
                &&& out@[k].0 < row
            },
            forall|i: int, j: int|
                is_interior(rows as int, cols as int, i, j) && i < row && (#[trigger] m[i][j]).state_
                    == STATE::ALIVE ==> exists|k: int| 0 <= k < out@.len() && out@[k] == (i as usize, j as usize),
            forall|a: int, b: int| 0 <= a < b < out@.len() ==> row_major_before(#[trigger] out@[a], #[trigger] out@[b]),
        decreases rows - row,
    {
        assert(m[row as int] == state.grid_@[row as int]@);
        assert(m[row as int].len() == cols);
        let mut col: usize = 1;
        while col < cols - 1
            invariant
                state.wf(),
                m == state@,
                rows == state.rows_,
                cols == state.cols_,
                1 <= row < rows - 1,
                1 <= col <= cols - 1,
                m[row as int] == state.grid_@[row as int]@,
                m[row as int].len() == cols,
                forall|k: int| 0 <= k < out@.len() ==> {
                    &&& is_interior(rows as int, cols as int, (#[trigger] out@[k]).0 as int, out@[k].1 as int)
                    &&& m[out@[k].0 as int][out@[k].1 as int].state_ == STATE::ALIVE
                    &&& row_major_before(out@[k], (row, col))
                },
                forall|i: int, j: int|
                    is_interior(rows as int, cols as int, i, j) && (i < row || (i == row && j < col))
                        && (#[trigger] m[i][j]).state_ == STATE::ALIVE ==> exists|k: int|
                        0 <= k < out@.len() && out@[k] == (i as usize, j as usize),
                forall|a: int, b: int| 0 <= a < b < out@.len() ==> row_major_before(#[trigger] out@[a], #[trigger] out@[b]),
            decreases cols - col,
        {
            if state.grid_[row][col].state_ == STATE::ALIVE {
                let ghost before = out@;
                out.push((row, col));
                assert forall|i: int, j: int|
                    is_interior(rows as int, cols as int, i, j) && (i < row || (i == row && j < col + 1))
                        && (#[trigger] m[i][j]).state_ == STATE::ALIVE implies exists|k: int|
                        0 <= k < out@.len() && out@[k] == (i as usize, j as usize) by {
                    if i == row && j == col {
                        assert(out@[before.len() as int] == (i as usize, j as usize));
                    } else {
                        let k = choose|k: int| 0 <= k < before.len() && before[k] == (i as usize, j as usize);
                        assert(out@[k] == before[k]);
                    }
                }
            }
            col += 1;
        }
        row += 1;
    }
    out
}

} // verus!

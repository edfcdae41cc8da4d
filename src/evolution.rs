//! What the update rule does over many generations: the border, the neighbour
//! bound, the block, the blinker and the streak counter.
use vstd::prelude::*;
use crate::conway::{
    cells_wf, inc_ticks, is_interior, live_neighbors, steps, step,
    stripe_cells, Cell, GridWorld, STATE,
};

verus! {

/// One generation keeps the dimensions of every row.
pub proof fn lemma_step_shape(g: Seq<Seq<Cell>>)
    requires
        cells_wf(g),
    ensures
        cells_wf(step(g)),
        step(g).len() == g.len(),
        forall|r: int| 0 <= r < g.len() ==> (#[trigger] step(g)[r]).len() == g[0].len(),
{
    crate::conway::lemma_step_wf(g);
    assert forall|r: int| 0 <= r < g.len() implies (#[trigger] step(g)[r]).len() == g[0].len() by {
        assert(g[r].len() == g[0].len());
    }
}

/// Any number of generations keeps a grid well formed and its dimensions;
/// in particular every border cell stays DEAD with a streak of 0.
pub proof fn lemma_border_stays_dead(g: Seq<Seq<Cell>>, k: nat)
    requires
        cells_wf(g),
    ensures
        cells_wf(steps(g, k)),
        steps(g, k).len() == g.len(),
        steps(g, k)[0].len() == g[0].len(),
        forall|r: int, c: int|
            0 <= r < g.len() && 0 <= c < g[0].len() && !is_interior(g.len() as int, g[0].len() as int, r, c)
                ==> (#[trigger] steps(g, k)[r][c]).state_ == STATE::DEAD && steps(g, k)[r][c].ticks_alive_ == 0,
    decreases k,
{
    if k > 0 {
        lemma_border_stays_dead(g, (k - 1) as nat);
        lemma_step_shape(steps(g, (k - 1) as nat));
    }
    let h = steps(g, k);
    assert forall|r: int, c: int|
        0 <= r < g.len() && 0 <= c < g[0].len() && !is_interior(g.len() as int, g[0].len() as int, r, c)
        implies (#[trigger] h[r][c]).state_ == STATE::DEAD && h[r][c].ticks_alive_ == 0 by {
        assert(h[r][c].row_pos_ == r);
    }
}

/// Every cell has between 0 and 8 live neighbours.
pub proof fn lemma_neighbor_count_bounded(g: Seq<Seq<Cell>>, r: int, c: int)
    ensures
        0 <= live_neighbors(g, r, c) <= 8,
{
}

/// The 2 x 2 block with top-left cell `(r0, c0)` lies in the interior.
pub open spec fn block_fits(g: Seq<Seq<Cell>>, r0: int, c0: int) -> bool {
    1 <= r0 && r0 + 1 < g.len() - 1 && 1 <= c0 && c0 + 1 < g[0].len() - 1
}

/// `(r, c)` is one of the four cells of the block at `(r0, c0)`.
pub open spec fn in_block(r0: int, c0: int, r: int, c: int) -> bool {
    r0 <= r <= r0 + 1 && c0 <= c <= c0 + 1
}

/// The alive cells of `g` are exactly those of the block at `(r0, c0)`.
pub open spec fn only_block(g: Seq<Seq<Cell>>, r0: int, c0: int) -> bool {
    forall|r: int, c: int|
        0 <= r < g.len() && 0 <= c < g[0].len() ==> ((#[trigger] g[r][c]).state_ == STATE::ALIVE
            <==> in_block(r0, c0, r, c))
}

/// A streak extended by `k` generations, stopping at `u32::MAX`.
pub open spec fn add_ticks(t: u32, k: nat) -> u32 {
    if t + k < u32::MAX { (t + k) as u32 } else { u32::MAX }
}

/// `g` after `k` generations of a still block: the same cells, with the
/// block's streaks extended by `k`.
pub open spec fn block_after(g: Seq<Seq<Cell>>, r0: int, c0: int, k: nat, h: Seq<Seq<Cell>>) -> bool {
    &&& h.len() == g.len()
    &&& forall|r: int| 0 <= r < g.len() ==> (#[trigger] h[r]).len() == g[0].len()
    &&& forall|r: int, c: int|
        0 <= r < g.len() && 0 <= c < g[0].len() ==> (#[trigger] h[r][c]) == if in_block(
            r0,
            c0,
            r,
            c,
        ) {
            Cell { ticks_alive_: add_ticks(g[r][c].ticks_alive_, k), ..g[r][c] }
        } else {
            g[r][c]
        }
}

proof fn lemma_block_step(g: Seq<Seq<Cell>>, r0: int, c0: int)
    requires
        cells_wf(g),
        block_fits(g, r0, c0),
        only_block(g, r0, c0),
    ensures
        block_after(g, r0, c0, 1, step(g)),
{
    lemma_step_shape(g);
    let h = step(g);
    assert forall|r: int, c: int| 0 <= r < g.len() && 0 <= c < g[0].len() implies (#[trigger] h[r][c])
        == if in_block(r0, c0, r, c) {
        Cell { ticks_alive_: add_ticks(g[r][c].ticks_alive_, 1), ..g[r][c] }
    } else {
        g[r][c]
    } by {
        assert(g[r].len() == g[0].len());
        if is_interior(g.len() as int, g[0].len() as int, r, c) {
            assert(g[r - 1][c - 1].state_ == STATE::ALIVE <==> in_block(r0, c0, r - 1, c - 1));
            assert(g[r - 1][c].state_ == STATE::ALIVE <==> in_block(r0, c0, r - 1, c));
            assert(g[r - 1][c + 1].state_ == STATE::ALIVE <==> in_block(r0, c0, r - 1, c + 1));
            assert(g[r][c - 1].state_ == STATE::ALIVE <==> in_block(r0, c0, r, c - 1));
            assert(g[r][c + 1].state_ == STATE::ALIVE <==> in_block(r0, c0, r, c + 1));
            assert(g[r + 1][c - 1].state_ == STATE::ALIVE <==> in_block(r0, c0, r + 1, c - 1));
            assert(g[r + 1][c].state_ == STATE::ALIVE <==> in_block(r0, c0, r + 1, c));
            assert(g[r + 1][c + 1].state_ == STATE::ALIVE <==> in_block(r0, c0, r + 1, c + 1));
            if in_block(r0, c0, r, c) {
                assert(live_neighbors(g, r, c) == 3);
            } else {
                assert(live_neighbors(g, r, c) != 3);
            }
        }
    }
}

/// A 2 x 2 block alone in the interior is a still life: after any number of
/// generations the same cells are alive, and the block's streaks have grown
/// by the number of generations.
pub proof fn lemma_block_still_life(g: Seq<Seq<Cell>>, r0: int, c0: int, k: nat)
    requires
        cells_wf(g),
        block_fits(g, r0, c0),
        only_block(g, r0, c0),
    ensures
        block_after(g, r0, c0, k, steps(g, k)),
    decreases k,
{
    if k == 0 {
        let h = steps(g, 0);
        assert forall|r: int| 0 <= r < g.len() implies (#[trigger] h[r]).len() == g[0].len() by {
            assert(g[r].len() == g[0].len());
        }
        assert forall|r: int, c: int| 0 <= r < g.len() && 0 <= c < g[0].len() implies (#[trigger] h[r][c])
            == if in_block(r0, c0, r, c) {
            Cell { ticks_alive_: add_ticks(g[r][c].ticks_alive_, 0), ..g[r][c] }
        } else {
            g[r][c]
        } by {}
    } else {
        let k1 = (k - 1) as nat;
        lemma_block_still_life(g, r0, c0, k1);
        lemma_border_stays_dead(g, k1);
        let p = steps(g, k1);
        assert forall|r: int, c: int| 0 <= r < p.len() && 0 <= c < p[0].len() implies ((#[trigger] p[r][c]).state_
            == STATE::ALIVE <==> in_block(r0, c0, r, c)) by {
            assert(g[r][c].state_ == STATE::ALIVE <==> in_block(r0, c0, r, c));
        }
        lemma_block_step(p, r0, c0);
        let h = steps(g, k);
        assert(h == step(p));
        assert forall|r: int, c: int| 0 <= r < g.len() && 0 <= c < g[0].len() implies (#[trigger] h[r][c])
            == if in_block(r0, c0, r, c) {
            Cell { ticks_alive_: add_ticks(g[r][c].ticks_alive_, k), ..g[r][c] }
        } else {
            g[r][c]
        } by {
            assert(p[r][c] == if in_block(r0, c0, r, c) {
                Cell { ticks_alive_: add_ticks(g[r][c].ticks_alive_, k1), ..g[r][c] }
            } else {
                g[r][c]
            });
        }
    }
}

/// The 3 x 3 box centred on `(r0, c0)` lies in the interior.
pub open spec fn box_fits(g: Seq<Seq<Cell>>, r0: int, c0: int) -> bool {
    2 <= r0 && r0 + 1 < g.len() - 1 && 2 <= c0 && c0 + 1 < g[0].len() - 1
}

/// `(r, c)` is on the horizontal run of three centred on `(r0, c0)`.
pub open spec fn on_row_of_three(r0: int, c0: int, r: int, c: int) -> bool {
    r == r0 && c0 - 1 <= c <= c0 + 1
}

/// `(r, c)` is on the vertical run of three centred on `(r0, c0)`.
pub open spec fn on_col_of_three(r0: int, c0: int, r: int, c: int) -> bool {
    c == c0 && r0 - 1 <= r <= r0 + 1
}

/// The alive cells of `g` are exactly the horizontal run centred on `(r0, c0)`.
pub open spec fn only_row_of_three(g: Seq<Seq<Cell>>, r0: int, c0: int) -> bool {
    forall|r: int, c: int|
        0 <= r < g.len() && 0 <= c < g[0].len() ==> ((#[trigger] g[r][c]).state_ == STATE::ALIVE
            <==> on_row_of_three(r0, c0, r, c))
}

/// The alive cells of `g` are exactly the vertical run centred on `(r0, c0)`.
pub open spec fn only_col_of_three(g: Seq<Seq<Cell>>, r0: int, c0: int) -> bool {
    forall|r: int, c: int|
        0 <= r < g.len() && 0 <= c < g[0].len() ==> ((#[trigger] g[r][c]).state_ == STATE::ALIVE
            <==> on_col_of_three(r0, c0, r, c))
}

proof fn lemma_row_to_col(g: Seq<Seq<Cell>>, r0: int, c0: int)
    requires
        cells_wf(g),
        box_fits(g, r0, c0),
        only_row_of_three(g, r0, c0),
    ensures
        only_col_of_three(step(g), r0, c0),
{
    lemma_step_shape(g);
    let h = step(g);
    assert forall|r: int, c: int| 0 <= r < h.len() && 0 <= c < h[0].len() implies ((#[trigger] h[r][c]).state_
        == STATE::ALIVE <==> on_col_of_three(r0, c0, r, c)) by {
        assert(g[r].len() == g[0].len());
        assert(g[r][c].state_ == STATE::ALIVE <==> on_row_of_three(r0, c0, r, c));
        if is_interior(g.len() as int, g[0].len() as int, r, c) {
            assert(g[r - 1][c - 1].state_ == STATE::ALIVE <==> on_row_of_three(r0, c0, r - 1, c - 1));
            assert(g[r - 1][c].state_ == STATE::ALIVE <==> on_row_of_three(r0, c0, r - 1, c));
            assert(g[r - 1][c + 1].state_ == STATE::ALIVE <==> on_row_of_three(r0, c0, r - 1, c + 1));
            assert(g[r][c - 1].state_ == STATE::ALIVE <==> on_row_of_three(r0, c0, r, c - 1));
            assert(g[r][c + 1].state_ == STATE::ALIVE <==> on_row_of_three(r0, c0, r, c + 1));
            assert(g[r + 1][c - 1].state_ == STATE::ALIVE <==> on_row_of_three(r0, c0, r + 1, c - 1));
            assert(g[r + 1][c].state_ == STATE::ALIVE <==> on_row_of_three(r0, c0, r + 1, c));
            assert(g[r + 1][c + 1].state_ == STATE::ALIVE <==> on_row_of_three(r0, c0, r + 1, c + 1));
        }
    }
}

proof fn lemma_col_to_row(g: Seq<Seq<Cell>>, r0: int, c0: int)
    requires
        cells_wf(g),
        box_fits(g, r0, c0),
        only_col_of_three(g, r0, c0),
    ensures
        only_row_of_three(step(g), r0, c0),
{
    lemma_step_shape(g);
    let h = step(g);
    assert forall|r: int, c: int| 0 <= r < h.len() && 0 <= c < h[0].len() implies ((#[trigger] h[r][c]).state_
        == STATE::ALIVE <==> on_row_of_three(r0, c0, r, c)) by {
        assert(g[r].len() == g[0].len());
        assert(g[r][c].state_ == STATE::ALIVE <==> on_col_of_three(r0, c0, r, c));
        if is_interior(g.len() as int, g[0].len() as int, r, c) {
            assert(g[r - 1][c - 1].state_ == STATE::ALIVE <==> on_col_of_three(r0, c0, r - 1, c - 1));
            assert(g[r - 1][c].state_ == STATE::ALIVE <==> on_col_of_three(r0, c0, r - 1, c));
            assert(g[r - 1][c + 1].state_ == STATE::ALIVE <==> on_col_of_three(r0, c0, r - 1, c + 1));
            assert(g[r][c - 1].state_ == STATE::ALIVE <==> on_col_of_three(r0, c0, r, c - 1));
            assert(g[r][c + 1].state_ == STATE::ALIVE <==> on_col_of_three(r0, c0, r, c + 1));
            assert(g[r + 1][c - 1].state_ == STATE::ALIVE <==> on_col_of_three(r0, c0, r + 1, c - 1));
            assert(g[r + 1][c].state_ == STATE::ALIVE <==> on_col_of_three(r0, c0, r + 1, c));
            assert(g[r + 1][c + 1].state_ == STATE::ALIVE <==> on_col_of_three(r0, c0, r + 1, c + 1));
        }
    }
}

/// A horizontal run of three alone in the interior (with room for the
/// vertical run around its centre) is a blinker: one generation turns it into
/// the vertical run through its centre, and a second turns it back.
pub proof fn lemma_blinker(g: Seq<Seq<Cell>>, r0: int, c0: int)
    requires
        cells_wf(g),
        box_fits(g, r0, c0),
        only_row_of_three(g, r0, c0),
    ensures
        only_col_of_three(steps(g, 1), r0, c0),
        only_row_of_three(steps(g, 2), r0, c0),
{
    assert(steps(g, 1) == step(g)) by {
        assert(steps(g, 0) == g);
    }
    lemma_row_to_col(g, r0, c0);
    lemma_step_shape(g);
    lemma_col_to_row(step(g), r0, c0);
}

/// What one generation does to the streak of an interior cell: a cell that
/// stays alive extends it, a cell that is born starts at 1, a cell that is
/// DEAD afterwards has 0.
pub proof fn lemma_ticks_one_generation(g: Seq<Seq<Cell>>, r: int, c: int)
    requires
        cells_wf(g),
        is_interior(g.len() as int, g[0].len() as int, r, c),
    ensures
        g[r][c].state_ == STATE::ALIVE && step(g)[r][c].state_ == STATE::ALIVE ==> step(g)[r][c].ticks_alive_
            == inc_ticks(g[r][c].ticks_alive_),
        g[r][c].state_ == STATE::DEAD && step(g)[r][c].state_ == STATE::ALIVE ==> step(g)[r][c].ticks_alive_
            == 1,
        step(g)[r][c].state_ == STATE::DEAD ==> step(g)[r][c].ticks_alive_ == 0,
{
    assert(g[r].len() == g[0].len());
}

/// A cell that starts with a streak of 0 (a DEAD cell, or a freshly seeded
/// one) and is alive after each of the next `k` generations has a streak of
/// exactly `k` after the `k`-th.
pub proof fn lemma_ticks_count_streak(g: Seq<Seq<Cell>>, r: int, c: int, k: nat)
    requires
        cells_wf(g),
        is_interior(g.len() as int, g[0].len() as int, r, c),
        g[r][c].ticks_alive_ == 0,
        k <= u32::MAX,
        forall|m: nat| 1 <= m <= k ==> (#[trigger] steps(g, m))[r][c].state_ == STATE::ALIVE,
    ensures
        steps(g, k)[r][c].ticks_alive_ == k,
    decreases k,
{
    if k > 0 {
        let k1 = (k - 1) as nat;
        assert forall|m: nat| 1 <= m <= k1 implies (#[trigger] steps(g, m))[r][c].state_ == STATE::ALIVE by {}
        lemma_ticks_count_streak(g, r, c, k1);
        lemma_border_stays_dead(g, k1);
        let p = steps(g, k1);
        lemma_ticks_one_generation(p, r, c);
        assert(steps(g, k)[r][c].state_ == STATE::ALIVE);
        assert(steps(g, k) == step(p));
    }
}

/// Two grids that `GridWorld::new` built for the same dimensions are the same
/// grid.
pub proof fn lemma_new_deterministic(a: GridWorld, b: GridWorld, num_rows: int, num_cols: int)
    requires
        a.rows_ == num_rows + 2 && a.cols_ == num_cols + 2 && a.ticks_ == 0,
        a@ == stripe_cells(num_rows + 2, num_cols + 2),
        b.rows_ == num_rows + 2 && b.cols_ == num_cols + 2 && b.ticks_ == 0,
        b@ == stripe_cells(num_rows + 2, num_cols + 2),
    ensures
        a.rows_ == b.rows_,
        a.cols_ == b.cols_,
        a.ticks_ == b.ticks_,
        a@ == b@,
{
}

} // verus!

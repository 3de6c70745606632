//! Laws of the transition rule, stated over the spec-level board model.

use vstd::prelude::*;
use crate::game::Cell;
use crate::game::Game;

verus! {

/// Law: querying outside the board always reports a dead cell, whatever the
/// board's size or contents.
pub proof fn lemma_out_of_bounds_dead(g: Game, x: int, y: int)
    requires
        !(0 <= x < g.cols && 0 <= y < g.rows),
    ensures
        !g.cell_alive(x, y),
{
}

/// Law: the transition rule is a function of the prior cell states alone.
/// Two boards of the same dimensions that agree on every cell produce the
/// same next generation, so stepping twice from one state gives one result.
pub proof fn lemma_tick_deterministic(g1: Game, g2: Game)
    requires
        g1.cols == g2.cols,
        g1.rows == g2.rows,
        forall|x: int, y: int| g1.cell_alive(x, y) == g2.cell_alive(x, y),
    ensures
        forall|x: int, y: int| g1.next_alive(x, y) == g2.next_alive(x, y),
{
    assert forall|x: int, y: int| g1.next_alive(x, y) == g2.next_alive(x, y) by {
        assert(g1.cell_alive(x - 1, y - 1) == g2.cell_alive(x - 1, y - 1));
        assert(g1.cell_alive(x, y - 1) == g2.cell_alive(x, y - 1));
        assert(g1.cell_alive(x + 1, y - 1) == g2.cell_alive(x + 1, y - 1));
        assert(g1.cell_alive(x - 1, y) == g2.cell_alive(x - 1, y));
        assert(g1.cell_alive(x + 1, y) == g2.cell_alive(x + 1, y));
        assert(g1.cell_alive(x - 1, y + 1) == g2.cell_alive(x - 1, y + 1));
        assert(g1.cell_alive(x, y + 1) == g2.cell_alive(x, y + 1));
        assert(g1.cell_alive(x + 1, y + 1) == g2.cell_alive(x + 1, y + 1));
        assert(g1.cell_alive(x, y) == g2.cell_alive(x, y));
        assert(g1.neighbor_count(x, y) == g2.neighbor_count(x, y));
    }
}

/// Law: a live cell with no live neighbors dies in the next generation.
pub proof fn lemma_isolated_cell_dies(g: Game, x: int, y: int)
    requires
        g.cell_alive(x, y),
        g.neighbor_count(x, y) == 0,
    ensures
        !g.next_alive(x, y),
{
}

/// Law: a dead cell is born exactly when it has three live neighbors; with
/// any other count (two, four, ...) it stays dead.
pub proof fn lemma_dead_cell_next(g: Game, x: int, y: int)
    requires
        !g.cell_alive(x, y),
    ensures
        g.next_alive(x, y) <==> g.neighbor_count(x, y) == 3,
{
}

/// Law: a 2x2 block is a still life. On a board whose live cells are exactly
/// the block at `(bx, by)`, every cell keeps its state across one generation:
/// each block cell has exactly 3 live neighbors and survives, and no dead
/// cell sees exactly 3.
pub proof fn lemma_block_still_life(g: Game, bx: int, by: int)
    requires
        forall|x: int, y: int|
            g.cell_alive(x, y) <==> (bx <= x <= bx + 1 && by <= y <= by + 1
                && 0 <= x < g.cols && 0 <= y < g.rows),
        0 <= bx, bx + 1 < g.cols,
        0 <= by, by + 1 < g.rows,
    ensures
        forall|x: int, y: int| g.next_alive(x, y) == g.cell_alive(x, y),
{
    assert forall|x: int, y: int| g.next_alive(x, y) == g.cell_alive(x, y) by {
        assert(g.cell_alive(x - 1, y - 1) == (bx <= x - 1 <= bx + 1 && by <= y - 1 <= by + 1));
        assert(g.cell_alive(x, y - 1) == (bx <= x <= bx + 1 && by <= y - 1 <= by + 1));
        assert(g.cell_alive(x + 1, y - 1) == (bx <= x + 1 <= bx + 1 && by <= y - 1 <= by + 1));
        assert(g.cell_alive(x - 1, y) == (bx <= x - 1 <= bx + 1 && by <= y <= by + 1));
        assert(g.cell_alive(x + 1, y) == (bx <= x + 1 <= bx + 1 && by <= y <= by + 1));
        assert(g.cell_alive(x - 1, y + 1) == (bx <= x - 1 <= bx + 1 && by <= y + 1 <= by + 1));
        assert(g.cell_alive(x, y + 1) == (bx <= x <= bx + 1 && by <= y + 1 <= by + 1));
        assert(g.cell_alive(x + 1, y + 1) == (bx <= x + 1 <= bx + 1 && by <= y + 1 <= by + 1));
    }
}

/// Law: on a board of at least 3x3 whose live cells are exactly the
/// horizontal triplet (0,1),(1,1),(2,1), one generation leaves live exactly
/// the vertical triplet (1,0),(1,1),(1,2).
pub proof fn lemma_blinker_horizontal_to_vertical(g: Game)
    requires
        g.cols >= 3,
        g.rows >= 3,
        forall|x: int, y: int| g.cell_alive(x, y) <==> (y == 1 && 0 <= x <= 2),
    ensures
        forall|x: int, y: int| g.next_alive(x, y) <==> (x == 1 && 0 <= y <= 2),
{
    assert forall|x: int, y: int| g.next_alive(x, y) <==> (x == 1 && 0 <= y <= 2) by {
        assert(g.cell_alive(x - 1, y - 1) == (y - 1 == 1 && 0 <= x - 1 <= 2));
        assert(g.cell_alive(x, y - 1) == (y - 1 == 1 && 0 <= x <= 2));
        assert(g.cell_alive(x + 1, y - 1) == (y - 1 == 1 && 0 <= x + 1 <= 2));
        assert(g.cell_alive(x - 1, y) == (y == 1 && 0 <= x - 1 <= 2));
        assert(g.cell_alive(x + 1, y) == (y == 1 && 0 <= x + 1 <= 2));
        assert(g.cell_alive(x - 1, y + 1) == (y + 1 == 1 && 0 <= x - 1 <= 2));
        assert(g.cell_alive(x, y + 1) == (y + 1 == 1 && 0 <= x <= 2));
        assert(g.cell_alive(x + 1, y + 1) == (y + 1 == 1 && 0 <= x + 1 <= 2));
    }
}

/// Law: on a board of at least 3x3 whose live cells are exactly the vertical
/// triplet (1,0),(1,1),(1,2), one generation leaves live exactly the
/// horizontal triplet (0,1),(1,1),(2,1).
pub proof fn lemma_blinker_vertical_to_horizontal(g: Game)
    requires
        g.cols >= 3,
        g.rows >= 3,
        forall|x: int, y: int| g.cell_alive(x, y) <==> (x == 1 && 0 <= y <= 2),
    ensures
        forall|x: int, y: int| g.next_alive(x, y) <==> (y == 1 && 0 <= x <= 2),
{
    assert forall|x: int, y: int| g.next_alive(x, y) <==> (y == 1 && 0 <= x <= 2) by {
        assert(g.cell_alive(x - 1, y - 1) == (x - 1 == 1 && 0 <= y - 1 <= 2));
        assert(g.cell_alive(x, y - 1) == (x == 1 && 0 <= y - 1 <= 2));
        assert(g.cell_alive(x + 1, y - 1) == (x + 1 == 1 && 0 <= y - 1 <= 2));
        assert(g.cell_alive(x - 1, y) == (x - 1 == 1 && 0 <= y <= 2));
        assert(g.cell_alive(x + 1, y) == (x + 1 == 1 && 0 <= y <= 2));
        assert(g.cell_alive(x - 1, y + 1) == (x - 1 == 1 && 0 <= y + 1 <= 2));
        assert(g.cell_alive(x, y + 1) == (x == 1 && 0 <= y + 1 <= 2));
        assert(g.cell_alive(x + 1, y + 1) == (x + 1 == 1 && 0 <= y + 1 <= 2));
    }
}

/// Law: the blinker oscillates with period two. If `g` holds exactly the
/// horizontal triplet and `h` is any board of the same dimensions whose cells
/// are `g`'s next generation, then `h`'s next generation is `g`'s state again.
pub proof fn lemma_blinker_period_two(g: Game, h: Game)
    requires
        g.cols >= 3,
        g.rows >= 3,
        h.cols == g.cols,
        h.rows == g.rows,
        forall|x: int, y: int| g.cell_alive(x, y) <==> (y == 1 && 0 <= x <= 2),
        forall|x: int, y: int| h.cell_alive(x, y) == g.next_alive(x, y),
    ensures
        forall|x: int, y: int| h.next_alive(x, y) == g.cell_alive(x, y),
{
    lemma_blinker_horizontal_to_vertical(g);
    assert forall|x: int, y: int| h.cell_alive(x, y) <==> (x == 1 && 0 <= y <= 2) by {
        assert(h.cell_alive(x, y) == g.next_alive(x, y));
    }
    lemma_blinker_vertical_to_horizontal(h);
}

/// Law: forcing a cell alive twice leaves the same board as forcing it once.
pub proof fn lemma_insert_idempotent(board: Seq<Cell>, idx: int)
    requires
        0 <= idx < board.len(),
    ensures
        board.update(idx, Cell::Alive).update(idx, Cell::Alive) == board.update(idx, Cell::Alive),
{
    assert(board.update(idx, Cell::Alive).update(idx, Cell::Alive) =~= board.update(
        idx,
        Cell::Alive,
    ));
}

} // verus!

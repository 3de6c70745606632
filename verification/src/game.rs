//! The grid engine: cell storage, neighbor counting, and the generation step.

use vstd::prelude::*;
use vstd::arithmetic::div_mod::lemma_fundamental_div_mod;
use vstd::arithmetic::div_mod::lemma_fundamental_div_mod_converse_div;
use vstd::arithmetic::div_mod::lemma_fundamental_div_mod_converse_mod;
use vstd::arithmetic::div_mod::lemma_mod_division_less_than_divisor;

verus! {

/// The state of one cell of the board.
#[derive(Clone, Copy, PartialEq, Eq, Structural, Debug)]
pub enum Cell {
    Alive,
    Dead,
}

/// A finite rectangular Game of Life board of `cols x rows` cells.
///
/// The board is stored row-major: position `(x, y)` lives at index
/// `y * cols + x`. Positions outside `[0, cols) x [0, rows)` are never stored
/// and count as permanently dead (fixed boundary, no wraparound).
#[derive(Debug)]
pub struct Game {
    pub cols: usize,
    pub rows: usize,
    pub board: Vec<Cell>,
}

impl Game {
    /// The raw row-major board contents.
    pub open spec fn board_view(self) -> Seq<Cell> {
        self.board@
    }

    /// Well-formedness: the board holds exactly one cell per position.
    pub open spec fn wf(self) -> bool {
        self.board_view().len() == self.rows * self.cols
    }

    /// Whether the cell at `(x, y)` is alive. Out-of-bounds positions are dead.
    pub open spec fn cell_alive(self, x: int, y: int) -> bool {
        &&& 0 <= x < self.cols
        &&& 0 <= y < self.rows
        &&& self.board_view()[y * self.cols + x] == Cell::Alive
    }

    /// 1 if the cell at `(x, y)` is alive, else 0; a summand of `neighbor_count`.
    pub open spec fn live(self, x: int, y: int) -> int {
        if self.cell_alive(x, y) {
            1
        } else {
            0
        }
    }

    /// The number of live cells in the Moore neighborhood of `(x, y)`: the
    /// eight positions of the 3x3 square centered on `(x, y)`, excluding
    /// `(x, y)` itself. Out-of-bounds neighbors count as dead.
    pub open spec fn neighbor_count(self, x: int, y: int) -> int {
        self.live(x - 1, y - 1) + self.live(x, y - 1) + self.live(x + 1, y - 1)
            + self.live(x - 1, y) + self.live(x + 1, y)
            + self.live(x - 1, y + 1) + self.live(x, y + 1) + self.live(x + 1, y + 1)
    }

    /// The B3/S23 rule: whether the cell at `(x, y)` is alive in the next
    /// generation, as a function of the current board.
    pub open spec fn next_alive(self, x: int, y: int) -> bool {
        if self.cell_alive(x, y) {
            self.neighbor_count(x, y) == 2 || self.neighbor_count(x, y) == 3
        } else {
            self.neighbor_count(x, y) == 3
        }
    }

    /// Creates a `cols x rows` board with every cell dead. A zero dimension
    /// yields a valid, empty board.
    pub fn new(cols: usize, rows: usize) -> (g: Game)
        requires
            rows * cols <= usize::MAX,
        ensures
            g.wf(),
            g.cols == cols,
            g.rows == rows,
            forall|x: int, y: int| !g.cell_alive(x, y),
    {
        let n: usize = rows * cols;
        let mut board: Vec<Cell> = Vec::new();
        let mut i: usize = 0;
        while i < n
            invariant
                i <= n,
                board@.len() == i,
                forall|j: int| 0 <= j < i ==> board@[j] == Cell::Dead,
            decreases n - i,
        {
            board.push(Cell::Dead);
            i = i + 1;
        }
        let g = Game { cols, rows, board };
        proof {
            assert forall|x: int, y: int| !g.cell_alive(x, y) by {
                if 0 <= x < cols && 0 <= y < rows {
                    lemma_pos_to_index(cols as int, rows as int, x, y);
                }
            }
        }
        g
    }

    /// Sets the cell at `(col, row)` to alive. Out-of-bounds positions are a
    /// contract violation and are excluded by the precondition.
    pub fn insert(&mut self, col: usize, row: usize)
        requires
            old(self).wf(),
            col < old(self).cols,
            row < old(self).rows,
        ensures
            final(self).wf(),
            final(self).cols == old(self).cols,
            final(self).rows == old(self).rows,
            final(self).board_view() == old(self).board_view().update(
                row * old(self).cols + col,
                Cell::Alive,
            ),
            final(self).cell_alive(col as int, row as int),
            forall|x: int, y: int|
                !(x == col && y == row) ==> final(self).cell_alive(x, y) == old(self).cell_alive(
                    x,
                    y,
                ),
    {
        let n: usize = self.board.len();
        proof {
            lemma_pos_to_index(
                self.cols as int,
                self.rows as int,
                col as int,
                row as int,
            );
            assert(row * self.cols + col < n);
        }
        let idx: usize = row * self.cols + col;
        self.board[idx] = Cell::Alive;
        proof {
            assert forall|x: int, y: int|
                !(x == col && y == row) implies self.cell_alive(x, y) == old(self).cell_alive(
                x,
                y,
            ) by {
                if 0 <= x < self.cols && 0 <= y < self.rows {
                    lemma_pos_to_index(self.cols as int, self.rows as int, x, y);
                }
            }
        }
    }

    /// Reports the cell at `(col, row)`: 1 if alive, 0 if dead or out of
    /// bounds.
    pub fn get(&self, col: usize, row: usize) -> (r: isize)
        requires
            self.wf(),
        ensures
            r == if self.cell_alive(col as int, row as int) { 1int } else { 0int },
            col >= self.cols || row >= self.rows ==> r == 0,
    {
        if col < self.cols && row < self.rows {
            let n: usize = self.board.len();
            proof {
                lemma_pos_to_index(
                    self.cols as int,
                    self.rows as int,
                    col as int,
                    row as int,
                );
                assert(row * self.cols + col < n);
            }
            let idx: usize = row * self.cols + col;
            match self.board[idx] {
                Cell::Alive => 1,
                Cell::Dead => 0,
            }
        } else {
            0
        }
    }

    /// The number of live Moore neighbors of the cell at row-major index
    /// `pos`, an integer in `[0, 8]`.
    pub fn num_moore_neighbor(&self, pos: usize) -> (count: u32)
        requires
            self.wf(),
            pos < self.rows * self.cols,
        ensures
            count == self.neighbor_count((pos % self.cols) as int, (pos / self.cols) as int),
            count <= 8,
    {
        proof {
            lemma_index_to_pos(self.cols as int, self.rows as int, pos as int);
        }
        let x: usize = pos % self.cols;
        let y: usize = pos / self.cols;
        let mut count: u32 = 0;
        if x > 0 && y > 0 && self.get(x - 1, y - 1) == 1 {
            count = count + 1;
        }
        if y > 0 && self.get(x, y - 1) == 1 {
            count = count + 1;
        }
        if y > 0 && self.get(x + 1, y - 1) == 1 {
            count = count + 1;
        }
        if x > 0 && self.get(x - 1, y) == 1 {
            count = count + 1;
        }
        if self.get(x + 1, y) == 1 {
            count = count + 1;
        }
        if x > 0 && self.get(x - 1, y + 1) == 1 {
            count = count + 1;
        }
        if self.get(x, y + 1) == 1 {
            count = count + 1;
        }
        if self.get(x + 1, y + 1) == 1 {
            count = count + 1;
        }
        count
    }

    /// The character that renders the cell at `(x, y)`: `*` if alive, `.` if
    /// dead.
    pub open spec fn cell_char(self, x: int, y: int) -> char {
        if self.cell_alive(x, y) {
            '*'
        } else {
            '.'
        }
    }

    /// The characters of row `y` strictly left of column `x`.
    pub open spec fn row_prefix(self, y: int, x: int) -> Seq<char>
        decreases x,
    {
        if x <= 0 {
            Seq::empty()
        } else {
            self.row_prefix(y, x - 1).push(self.cell_char(x - 1, y))
        }
    }

    /// The textual rendering of the rows strictly above `y`: each row is its
    /// `cols` cell characters followed by a newline.
    pub open spec fn render_prefix(self, y: int) -> Seq<char>
        decreases y,
    {
        if y <= 0 {
            Seq::empty()
        } else {
            self.render_prefix(y - 1) + self.row_prefix(y - 1, self.cols as int).push('\n')
        }
    }

    /// The full textual rendering of the board: `rows` lines of `cols`
    /// characters each.
    pub open spec fn render_spec(self) -> Seq<char> {
        self.render_prefix(self.rows as int)
    }

    /// Renders the board row-major, one newline-terminated line per row, `*`
    /// for a live cell and `.` for a dead one.
    pub fn render(&self) -> (out: String)
        requires
            self.wf(),
        ensures
            out@ == self.render_spec(),
    {
        let mut out: String = String::new();
        let mut y: usize = 0;
        while y < self.rows
            invariant
                self.wf(),
                y <= self.rows,
                out@ == self.render_prefix(y as int),
            decreases self.rows - y,
        {
            let mut x: usize = 0;
            proof {
                assert(out@ =~= self.render_prefix(y as int) + self.row_prefix(y as int, 0));
            }
            while x < self.cols
                invariant
                    self.wf(),
                    x <= self.cols,
                    y < self.rows,
                    out@ == self.render_prefix(y as int) + self.row_prefix(y as int, x as int),
                decreases self.cols - x,
            {
                if self.get(x, y) == 1 {
                    proof {
                        reveal_strlit("*");
                    }
                    out.append("*");
                } else {
                    proof {
                        reveal_strlit(".");
                    }
                    out.append(".");
                }
                x = x + 1;
                proof {
                    assert(out@ =~= self.render_prefix(y as int) + self.row_prefix(
                        y as int,
                        x as int,
                    ));
                }
            }
            proof {
                reveal_strlit("\n");
            }
            out.append("\n");
            y = y + 1;
            proof {
                assert(out@ =~= self.render_prefix(y as int));
            }
        }
        out
    }

    /// Advances the board one generation: every cell's next state is computed
    /// against the same pre-tick snapshot, and the whole board is replaced in
    /// one swap.
    pub fn tick(&mut self)
        requires
            old(self).wf(),
        ensures
            final(self).wf(),
            final(self).cols == old(self).cols,
            final(self).rows == old(self).rows,
            forall|x: int, y: int|
                0 <= x < old(self).cols && 0 <= y < old(self).rows
                    ==> final(self).cell_alive(x, y) == old(self).next_alive(x, y),
    {
        let n: usize = self.board.len();
        let mut next: Vec<Cell> = Vec::new();
        let mut i: usize = 0;
        while i < n
            invariant
                *self == *old(self),
                self.wf(),
                n == self.board@.len(),
                i <= n,
                next@.len() == i,
                forall|j: int|
                    0 <= j < i ==> ((next@[j] == Cell::Alive) == self.next_alive(
                        j % (self.cols as int),
                        j / (self.cols as int),
                    )),
            decreases n - i,
        {
            proof {
                lemma_index_to_pos(self.cols as int, self.rows as int, i as int);
            }
            let nc: u32 = self.num_moore_neighbor(i);
            let here_alive: bool = match self.board[i] {
                Cell::Alive => true,
                Cell::Dead => false,
            };
            let cell_next: Cell = if here_alive {
                if nc == 2 || nc == 3 {
                    Cell::Alive
                } else {
                    Cell::Dead
                }
            } else {
                if nc == 3 {
                    Cell::Alive
                } else {
                    Cell::Dead
                }
            };
            next.push(cell_next);
            i = i + 1;
        }
        self.board = next;
        proof {
            assert forall|x: int, y: int|
                0 <= x < old(self).cols && 0 <= y < old(self).rows implies self.cell_alive(x, y)
                == old(self).next_alive(x, y) by {
                lemma_pos_to_index(old(self).cols as int, old(self).rows as int, x, y);
            }
        }
    }
}

/// Row-major index arithmetic: an in-bounds position maps to an in-range
/// index, and dividing that index back out recovers the position.
proof fn lemma_pos_to_index(cols: int, rows: int, x: int, y: int)
    requires
        0 <= x < cols,
        0 <= y < rows,
    ensures
        0 <= y * cols + x < rows * cols,
        (y * cols + x) % cols == x,
        (y * cols + x) / cols == y,
{
    assert(0 <= y * cols + x < rows * cols) by (nonlinear_arith)
        requires
            0 <= x < cols,
            0 <= y < rows,
    ;
    lemma_fundamental_div_mod_converse_div(y * cols + x, cols, y, x);
    lemma_fundamental_div_mod_converse_mod(y * cols + x, cols, y, x);
}

/// Row-major index arithmetic, the other way around: an in-range index splits
/// into an in-bounds position `(i % cols, i / cols)`.
proof fn lemma_index_to_pos(cols: int, rows: int, i: int)
    requires
        0 <= cols,
        0 <= rows,
        0 <= i < rows * cols,
    ensures
        0 < cols,
        0 < rows,
        0 <= i % cols < cols,
        0 <= i / cols < rows,
        (i / cols) * cols + (i % cols) == i,
{
    assert((i / cols) * cols == cols * (i / cols)) by (nonlinear_arith);
    assert(0 < cols && 0 < rows) by (nonlinear_arith)
        requires
            0 <= cols,
            0 <= rows,
            0 <= i < rows * cols,
    ;
    lemma_mod_division_less_than_divisor(i, cols);
    lemma_fundamental_div_mod(i, cols);
    let q: int = i / cols;
    let r: int = i % cols;
    assert(0 <= q < rows) by (nonlinear_arith)
        requires
            i == cols * q + r,
            0 <= r < cols,
            0 <= i < rows * cols,
            0 < cols,
    ;
}

} // verus!

//! Conway's Game of Life on a finite rectangular board.
//!
//! The board has fixed dimensions, a non-wrapping boundary (positions outside
//! the board are permanently dead), and evolves by the canonical B3/S23 rule:
//! a live cell survives with 2 or 3 live Moore neighbors, a dead cell is born
//! with exactly 3, and every other cell is dead in the next generation.

mod game;
mod laws;

pub use game::Cell;
pub use game::Game;
pub use laws::lemma_out_of_bounds_dead;
pub use laws::lemma_tick_deterministic;
pub use laws::lemma_isolated_cell_dies;
pub use laws::lemma_dead_cell_next;
pub use laws::lemma_block_still_life;
pub use laws::lemma_blinker_horizontal_to_vertical;
pub use laws::lemma_blinker_vertical_to_horizontal;
pub use laws::lemma_blinker_period_two;
pub use laws::lemma_insert_idempotent;


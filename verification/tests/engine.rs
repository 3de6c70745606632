use life::Cell;
use life::Game;

#[test]
fn it_works() {
    let mut game = Game::new(3, 3);
    game.insert(0, 1);
    game.insert(1, 1);
    game.insert(2, 1);
    // blinker horizontal
    assert_eq!(game.get(0, 1), 1);
    assert_eq!(game.get(1, 1), 1);
    assert_eq!(game.get(2, 1), 1);
    println!("{:?}", game.board);
    game.tick();
    println!("{:?}", game.board);
    // blinker vertical
    assert_eq!(game.get(1, 1), 1);
    assert_eq!(game.get(1, 0), 1);
    assert_eq!(game.get(1, 2), 1);
    // check so that horizontal 0 & 2 are dead
    assert_eq!(game.get(0, 1), 0);
    assert_eq!(game.get(2, 1), 0);
}

#[test]
fn new_board_is_all_dead() {
    let game = Game::new(4, 3);
    assert_eq!(game.cols, 4);
    assert_eq!(game.rows, 3);
    for y in 0..3 {
        for x in 0..4 {
            assert_eq!(game.get(x, y), 0);
        }
    }
}

#[test]
fn zero_sized_board_is_valid() {
    let mut game = Game::new(0, 0);
    assert_eq!(game.get(0, 0), 0);
    game.tick();
    assert_eq!(game.get(0, 0), 0);
}

#[test]
fn out_of_bounds_reports_dead() {
    let mut game = Game::new(3, 3);
    game.insert(2, 2);
    assert_eq!(game.get(3, 0), 0);
    assert_eq!(game.get(0, 3), 0);
    assert_eq!(game.get(3, 3), 0);
    assert_eq!(game.get(usize::MAX, usize::MAX), 0);
    let thin = Game::new(1, 5);
    assert_eq!(thin.get(1, 0), 0);
    assert_eq!(thin.get(0, 5), 0);
}

#[test]
fn tick_is_deterministic() {
    let mut a = Game::new(5, 4);
    let mut b = Game::new(5, 4);
    for (x, y) in [(1, 1), (2, 1), (3, 1), (2, 2), (0, 3)] {
        a.insert(x, y);
        b.insert(x, y);
    }
    a.tick();
    b.tick();
    for y in 0..4 {
        for x in 0..5 {
            assert_eq!(a.get(x, y), b.get(x, y));
        }
    }
}

#[test]
fn block_is_a_still_life() {
    let mut game = Game::new(4, 4);
    game.insert(1, 1);
    game.insert(2, 1);
    game.insert(1, 2);
    game.insert(2, 2);
    game.tick();
    for y in 0..4 {
        for x in 0..4 {
            let expected: isize = if (1..=2).contains(&x) && (1..=2).contains(&y) { 1 } else { 0 };
            assert_eq!(game.get(x, y), expected);
        }
    }
}

#[test]
fn blinker_oscillates_with_period_two() {
    let mut game = Game::new(5, 3);
    game.insert(0, 1);
    game.insert(1, 1);
    game.insert(2, 1);
    game.tick();
    assert_eq!(game.get(1, 0), 1);
    assert_eq!(game.get(1, 1), 1);
    assert_eq!(game.get(1, 2), 1);
    assert_eq!(game.get(0, 1), 0);
    assert_eq!(game.get(2, 1), 0);
    game.tick();
    // the original horizontal triplet is restored
    for y in 0..3 {
        for x in 0..5 {
            let expected: isize = if y == 1 && x <= 2 { 1 } else { 0 };
            assert_eq!(game.get(x, y), expected);
        }
    }
}

#[test]
fn isolated_cell_dies() {
    let mut game = Game::new(5, 5);
    game.insert(2, 2);
    game.tick();
    for y in 0..5 {
        for x in 0..5 {
            assert_eq!(game.get(x, y), 0);
        }
    }
}

#[test]
fn lone_corner_cell_dies() {
    let mut game = Game::new(1, 1);
    game.insert(0, 0);
    game.tick();
    assert_eq!(game.get(0, 0), 0);
}

#[test]
fn birth_on_exactly_three_neighbors() {
    // an L of live cells: the dead cell at (1, 1) has exactly 3 live neighbors
    let mut game = Game::new(4, 4);
    game.insert(0, 0);
    game.insert(1, 0);
    game.insert(0, 1);
    assert_eq!(game.get(1, 1), 0);
    game.tick();
    assert_eq!(game.get(1, 1), 1);
}

#[test]
fn no_birth_on_two_neighbors() {
    let mut game = Game::new(5, 5);
    game.insert(1, 2);
    game.insert(3, 2);
    // (2, 2) is dead with exactly 2 live neighbors
    game.tick();
    assert_eq!(game.get(2, 2), 0);
}

#[test]
fn no_birth_on_four_neighbors() {
    let mut game = Game::new(5, 5);
    game.insert(2, 1);
    game.insert(1, 2);
    game.insert(3, 2);
    game.insert(2, 3);
    // (2, 2) is dead with exactly 4 live neighbors
    game.tick();
    assert_eq!(game.get(2, 2), 0);
}

#[test]
fn insert_twice_is_insert_once() {
    let mut once = Game::new(3, 3);
    once.insert(1, 2);
    let mut twice = Game::new(3, 3);
    twice.insert(1, 2);
    twice.insert(1, 2);
    for y in 0..3 {
        for x in 0..3 {
            assert_eq!(once.get(x, y), twice.get(x, y));
        }
    }
}

#[test]
fn num_moore_neighbor_counts_exactly() {
    let mut game = Game::new(3, 3);
    game.insert(0, 1);
    game.insert(1, 1);
    game.insert(2, 1);
    // row-major index 4 is the center (1, 1): two live neighbors beside it
    assert_eq!(game.num_moore_neighbor(4), 2);
    // index 1 is (1, 0): all three cells of the middle row are below it
    assert_eq!(game.num_moore_neighbor(1), 3);
    // index 0 is the corner (0, 0): (0, 1) and (1, 1) are live
    assert_eq!(game.num_moore_neighbor(0), 2);
    // index 3 is (0, 1): itself live, neighbors (1, 1) live, corners dead
    assert_eq!(game.num_moore_neighbor(3), 1);
}

#[test]
fn render_draws_rows_of_cells() {
    let mut game = Game::new(3, 2);
    game.insert(0, 0);
    game.insert(2, 1);
    assert_eq!(game.render().as_str(), "*..\n..*\n");
    let empty = Game::new(2, 2);
    assert_eq!(empty.render().as_str(), "..\n..\n");
}

#[test]
fn cell_states_compare_by_variant() {
    assert_eq!(Cell::Alive, Cell::Alive);
    assert_ne!(Cell::Alive, Cell::Dead);
}

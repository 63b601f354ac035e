use minesweeper::MinesweeperCellType;
use minesweeper::MinesweeperGrid;
use minesweeper::Outcome;

fn cell_grid(cells: Vec<Vec<MinesweeperCellType>>) -> MinesweeperGrid {
    MinesweeperGrid(cells)
}

const H: MinesweeperCellType = MinesweeperCellType::Hidden;
const B: MinesweeperCellType = MinesweeperCellType::Bomb;

#[test]
fn new_grid_has_requested_dimensions() {
    let grid = MinesweeperGrid::new(5, 4, 300);
    assert_eq!(grid.0.len(), 5);
    for column in grid.0.iter() {
        assert_eq!(column.len(), 4);
    }
    assert!(grid.is_first_move());
}

#[test]
fn new_grid_with_zero_probability_is_all_hidden() {
    let grid = MinesweeperGrid::new(6, 6, 0);
    for column in grid.0.iter() {
        for cell in column.iter() {
            assert_eq!(*cell, H);
        }
    }
}

#[test]
fn new_grid_with_full_probability_is_all_bombs() {
    let grid = MinesweeperGrid::new(6, 6, 1000);
    for column in grid.0.iter() {
        for cell in column.iter() {
            assert_eq!(*cell, B);
        }
    }
}

#[test]
fn discover_out_of_bounds_is_invalid_and_mutates_nothing() {
    let mut grid = cell_grid(vec![vec![H, B], vec![H, H]]);
    let before = grid.to_console_string();
    assert_eq!(grid.discover(5, 0), Err(Outcome::Invalid));
    assert_eq!(grid.discover(0, 17), Err(Outcome::Invalid));
    assert_eq!(grid.to_console_string(), before);
}

#[test]
fn first_move_on_a_bomb_never_loses() {
    let mut grid = cell_grid(vec![vec![B, B], vec![B, B]]);
    let result = grid.discover(0, 0);
    assert!(result.is_ok());
    assert_ne!(result, Err(Outcome::Lost));
}

#[test]
fn bomb_after_first_move_loses_and_explodes_the_cell() {
    let mut grid = cell_grid(vec![vec![H, B], vec![H, H]]);
    assert!(grid.discover(0, 0).is_ok());
    assert_eq!(grid.discover(0, 1), Err(Outcome::Lost));
    assert_eq!(grid.get_cell(0, 1), Some(MinesweeperCellType::Exploded));
}

#[test]
fn discover_on_revealed_cell_is_noop_twice_with_no_change() {
    let mut grid = cell_grid(vec![vec![H, B], vec![H, H]]);
    assert!(grid.discover(0, 0).is_ok());
    let snapshot = grid.to_console_string();
    assert_eq!(grid.discover(0, 0), Err(Outcome::NoOp));
    assert_eq!(grid.to_console_string(), snapshot);
    assert_eq!(grid.discover(0, 0), Err(Outcome::NoOp));
    assert_eq!(grid.to_console_string(), snapshot);
}

#[test]
fn cascade_does_not_spread_from_a_cell_with_bomb_neighbours() {
    // 3x3 grid, bombs at (0,0) and (2,2): (1,1) has two bomb
    // neighbours, so discovering it reveals exactly that one cell.
    let mut grid = cell_grid(vec![vec![B, H, H], vec![H, H, H], vec![H, H, B]]);
    assert_eq!(grid.discover(1, 1), Ok(1));
    assert_eq!(grid.get_cell(1, 1), Some(MinesweeperCellType::Revealed(2)));
    for x in 0..3 {
        for y in 0..3 {
            if (x, y) != (1, 1) {
                let cell = grid.get_cell(x, y).unwrap();
                assert!(cell == H || cell == B, "cell ({}, {}) changed", x, y);
            }
        }
    }
}

#[test]
fn cascade_reveals_exactly_the_connected_zero_region() {
    // One bomb in the far corner: flood fill from (0,0) reveals every
    // cell but the bomb, and counts each exactly once.
    let mut grid = cell_grid(vec![vec![H, H, H], vec![H, H, H], vec![H, H, B]]);
    assert_eq!(grid.discover(0, 0), Ok(8));
    for x in 0..3 {
        for y in 0..3 {
            let cell = grid.get_cell(x, y).unwrap();
            if (x, y) == (2, 2) {
                assert_eq!(cell, B);
            } else {
                assert!(matches!(cell, MinesweeperCellType::Revealed(_)));
            }
        }
    }
    assert_eq!(grid.get_cell(1, 1), Some(MinesweeperCellType::Revealed(1)));
    assert_eq!(grid.get_cell(0, 0), Some(MinesweeperCellType::Revealed(0)));
}

#[test]
fn console_string_hides_bombs_and_shows_counts() {
    let mut grid = cell_grid(vec![vec![B, H], vec![H, H]]);
    assert_eq!(grid.to_console_string(), "_ _\n_ _");
    assert!(grid.discover(1, 1).is_ok());
    assert_eq!(grid.to_console_string(), "_ _\n_ 1");
}

#[test]
fn discord_string_renders_cells_and_counts() {
    let mut grid = cell_grid(vec![vec![B, H], vec![H, H]]);
    assert_eq!(grid.to_discord_string(), "💣 🟫\n🟫 🟫");
    assert!(grid.discover(1, 1).is_ok());
    assert_eq!(grid.to_discord_string(), "💣 🟫\n🟫 1️⃣");
    assert_eq!(grid.discover(0, 0), Err(Outcome::Lost));
    assert_eq!(grid.to_discord_string(), "🧨 🟫\n🟫 1️⃣");
}

#[test]
fn revealed_counts_cover_the_whole_range() {
    // A 3x3 ring of bombs around a lone hidden centre: eight bomb
    // neighbours.
    let mut grid = cell_grid(vec![vec![B, B, B], vec![B, H, B], vec![B, B, B]]);
    // Spend the first-move safety elsewhere first: reveal the centre
    // directly as the first move.
    assert_eq!(grid.discover(1, 1), Ok(1));
    assert_eq!(grid.get_cell(1, 1), Some(MinesweeperCellType::Revealed(8)));
    assert_eq!(grid.to_console_string(), "_ _ _\n_ 8 _\n_ _ _");
}

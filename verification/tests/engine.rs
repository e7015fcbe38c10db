use minesweeper::{Cell, CellStatus, CellType, Game};

// Construction yields exactly the requested number of bombs, all else empty.
#[test]
fn construction_bomb_count() {
    for bombs in 0..9u16 {
        let g = Game::new(3, 3, bombs);
        let mut bomb_cells = 0u16;
        let mut empty_cells = 0u16;
        for y in 0..3u8 {
            for x in 0..3u8 {
                match g.get_cell(x, y).cell_type {
                    CellType::Bomb => bomb_cells += 1,
                    CellType::Empty => empty_cells += 1,
                }
            }
        }
        assert_eq!(bomb_cells, bombs);
        assert_eq!(empty_cells, 9 - bombs);
    }
}

// Every cell starts hidden.
#[test]
fn initial_status_hidden() {
    let g = Game::new(4, 5, 7);
    for y in 0..5u8 {
        for x in 0..4u8 {
            assert!(g.get_cell(x, y).cell_status == CellStatus::Hidden);
        }
    }
}

// Neighbor enumeration stays on the grid, skips the origin, and gives
// between 3 (corner) and 8 (interior) coordinates on grids of size >= 2x2.
#[test]
fn neighbor_enumeration_bounds() {
    let g = Game::new(5, 4, 0);
    for y in 0..4u8 {
        for x in 0..5u8 {
            let ns = g.get_neighboring_coords(x, y);
            assert!(ns.len() >= 3 && ns.len() <= 8);
            for &(nx, ny) in ns.iter() {
                assert!(nx < 5 && ny < 4);
                assert!(!(nx == x && ny == y));
                assert!((nx as i16 - x as i16).abs() <= 1);
                assert!((ny as i16 - y as i16).abs() <= 1);
            }
        }
    }
    let corner = g.get_neighboring_coords(0, 0);
    assert_eq!(corner.len(), 3);
    let interior = g.get_neighboring_coords(2, 2);
    assert_eq!(interior.len(), 8);
}

// The bomb-count query equals a hand count over the neighbor coordinates.
#[test]
fn bomb_count_matches_neighbors() {
    let g = Game::new_with_bombs(4, 4, vec![0, 5, 10, 15]);
    for y in 0..4u8 {
        for x in 0..4u8 {
            let mut by_hand = 0u16;
            for &(nx, ny) in g.get_neighboring_coords(x, y).iter() {
                if g.get_cell(nx, ny).cell_type == CellType::Bomb {
                    by_hand += 1;
                }
            }
            assert_eq!(g.get_neighboring_bomb_count(x, y), by_hand);
        }
    }
}

// Revealing a bomb kills: status Killed, returns true, nothing else moves.
#[test]
fn reveal_bomb_kills_only_that_cell() {
    let mut g = Game::new_with_bombs(3, 3, vec![4]);
    let killed = g.reveal_cell(1, 1);
    assert!(killed);
    assert!(g.get_cell(1, 1).cell_status == CellStatus::Killed);
    for y in 0..3u8 {
        for x in 0..3u8 {
            if !(x == 1 && y == 1) {
                assert!(g.get_cell(x, y).cell_status == CellStatus::Hidden);
            }
        }
    }
}

// Revealing an empty cell with a nonzero count reveals only that cell.
#[test]
fn reveal_numbered_cell_reveals_one() {
    let mut g = Game::new_with_bombs(3, 3, vec![0]);
    assert_eq!(g.get_neighboring_bomb_count(1, 1), 1);
    let killed = g.reveal_cell(1, 1);
    assert!(!killed);
    assert!(g.get_cell(1, 1).cell_status == CellStatus::Revealed);
    for y in 0..3u8 {
        for x in 0..3u8 {
            if !(x == 1 && y == 1) {
                assert!(g.get_cell(x, y).cell_status == CellStatus::Hidden);
            }
        }
    }
}

// Scenario: 3x3 grid, one bomb at (0,0); revealing (2,2) cascades through
// the zero-count region and reveals everything except the bomb.
#[test]
fn cascade_reveals_all_but_bomb() {
    let mut g = Game::new_with_bombs(3, 3, vec![0]);
    assert_eq!(g.get_neighboring_bomb_count(1, 1), 1);
    assert_eq!(g.get_neighboring_bomb_count(2, 2), 0);
    let killed = g.reveal_cell(2, 2);
    assert!(!killed);
    for y in 0..3u8 {
        for x in 0..3u8 {
            let c = g.get_cell(x, y);
            if x == 0 && y == 0 {
                assert!(c.cell_type == CellType::Bomb);
                assert!(c.cell_status == CellStatus::Hidden);
            } else {
                assert!(c.cell_status == CellStatus::Revealed);
            }
        }
    }
}

// A cascade never reveals past a flagged cell, and never a bomb.
#[test]
fn cascade_skips_flagged() {
    let mut g = Game::new_with_bombs(3, 3, vec![0]);
    g.toggle_cell_flag(2, 0);
    let killed = g.reveal_cell(2, 2);
    assert!(!killed);
    assert!(g.get_cell(2, 0).cell_status == CellStatus::Flagged);
    assert!(g.get_cell(0, 0).cell_status == CellStatus::Hidden);
    assert!(g.get_cell(1, 1).cell_status == CellStatus::Revealed);
}

// Toggling once flags a hidden cell; toggling twice restores it.
#[test]
fn toggle_flag_roundtrip() {
    let mut g = Game::new(2, 2, 1);
    g.toggle_cell_flag(0, 1);
    assert!(g.get_cell(0, 1).cell_status == CellStatus::Flagged);
    g.toggle_cell_flag(0, 1);
    assert!(g.get_cell(0, 1).cell_status == CellStatus::Hidden);
}

// Scenario: the 1x1 grid with no bombs has one empty cell and no neighbors.
#[test]
fn single_cell_grid() {
    let g = Game::new(1, 1, 0);
    let c = g.get_cell(0, 0);
    assert!(c.cell_type == CellType::Empty);
    assert!(c.cell_status == CellStatus::Hidden);
    assert!(g.get_neighboring_coords(0, 0).is_empty());
    assert_eq!(g.get_neighboring_bomb_count(0, 0), 0);
}

// A fresh cell carries its type and starts hidden.
#[test]
fn cell_new_starts_hidden() {
    let c = Cell::new(CellType::Bomb);
    assert!(c.cell_type == CellType::Bomb);
    assert!(c.cell_status == CellStatus::Hidden);
}

// Random construction respects width and height and the bomb budget.
#[test]
fn random_construction_dimensions() {
    let g = Game::new(9, 7, 10);
    assert_eq!(g.width, 9);
    assert_eq!(g.height, 7);
    assert_eq!(g.bomb_count, 10);
    let mut bombs = 0u16;
    for y in 0..7u8 {
        for x in 0..9u8 {
            if g.get_cell(x, y).cell_type == CellType::Bomb {
                bombs += 1;
            }
        }
    }
    assert_eq!(bombs, 10);
}

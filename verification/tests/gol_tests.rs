use gol::engine::cell_neighbors;
use gol::engine::count_live_neighbors;
use gol::engine::evolve;
use gol::engine::step;
use gol::grid::format_bitvec;
use gol::grid::BoundaryMode;
use gol::grid::Grid;
use gol::grid::GridError;

fn grid_from(width: usize, height: usize, cells: Vec<bool>) -> Grid {
    assert_eq!(cells.len(), width * height);
    Grid::new(width, height, |i: usize| cells[i]).unwrap()
}

fn all_dead(width: usize, height: usize) -> Grid {
    Grid::new(width, height, |_i: usize| false).unwrap()
}

fn all_live(width: usize, height: usize) -> Grid {
    Grid::new(width, height, |_i: usize| true).unwrap()
}

#[test]
fn new_rejects_zero_width() {
    assert_eq!(Grid::new(0, 5, |_i: usize| false).unwrap_err(), GridError::InvalidDimensions);
}

#[test]
fn new_rejects_zero_height() {
    assert_eq!(Grid::new(5, 0, |_i: usize| true).unwrap_err(), GridError::InvalidDimensions);
}

#[test]
fn new_initializes_from_function() {
    let g = Grid::new(3, 2, |i: usize| i % 2 == 0).unwrap();
    assert_eq!(g.width, 3);
    assert_eq!(g.height, 2);
    assert_eq!(g.cells, vec![true, false, true, false, true, false]);
}

#[test]
fn get_in_bounds_reads_cells() {
    let g = grid_from(3, 2, vec![true, false, false, false, false, true]);
    assert!(g.get(0, 0, BoundaryMode::Clamped));
    assert!(!g.get(0, 1, BoundaryMode::Clamped));
    assert!(g.get(1, 2, BoundaryMode::Clamped));
    assert!(g.get(1, 2, BoundaryMode::Wrapped));
}

#[test]
fn get_clamped_out_of_range_is_dead() {
    let g = all_live(3, 3);
    assert!(!g.get(3, 0, BoundaryMode::Clamped));
    assert!(!g.get(0, 3, BoundaryMode::Clamped));
    assert!(!g.get(100, 100, BoundaryMode::Clamped));
}

#[test]
fn get_wrapped_reduces_modulo() {
    let g = grid_from(3, 3, vec![
        true, false, false,
        false, false, false,
        false, false, false,
    ]);
    assert!(g.get(3, 3, BoundaryMode::Wrapped));
    assert!(g.get(0, 6, BoundaryMode::Wrapped));
    assert!(!g.get(4, 3, BoundaryMode::Wrapped));
}

#[test]
fn set_overwrites_one_cell() {
    let mut g = all_dead(3, 3);
    g.set(1, 2, true);
    assert_eq!(g.cells, vec![
        false, false, false,
        false, false, true,
        false, false, false,
    ]);
    g.set(1, 2, false);
    assert_eq!(g.cells, vec![false; 9]);
}

#[test]
fn to_text_length_is_rows_times_width_plus_newline() {
    for (w, h) in [(1, 1), (3, 2), (5, 4), (10, 10)] {
        let g = Grid::new(w, h, |i: usize| i % 3 == 0).unwrap();
        assert_eq!(g.to_text('.', '#').len(), h * (w + 1));
    }
}

#[test]
fn to_text_renders_rows() {
    let g = grid_from(3, 2, vec![
        true, false, true,
        false, true, false,
    ]);
    assert_eq!(g.to_text('.', '#'), "#.#\n.#.\n");
    assert_eq!(g.to_text('_', 'o'), "o_o\n_o_\n");
}

#[test]
fn format_bitvec_matches_to_text() {
    let cells = vec![true, false, false, true];
    let g = grid_from(2, 2, cells.clone());
    assert_eq!(format_bitvec(&cells, 2, 2, '.', '#'), g.to_text('.', '#'));
    assert_eq!(format_bitvec(&cells, 2, 2, '.', '#'), "#.\n.#\n");
}

#[test]
fn format_bitvec_reads_missing_cells_as_dead() {
    let cells = vec![true, true];
    assert_eq!(format_bitvec(&cells, 2, 2, '.', '#'), "##\n..\n");
}

#[test]
fn evolve_rule_table_is_exhaustive() {
    for n in 0..=8 {
        assert_eq!(evolve(true, n), n == 2 || n == 3);
        assert_eq!(evolve(false, n), n == 3);
    }
    assert!(evolve(true, 2));
    assert!(evolve(true, 3));
    assert!(!evolve(true, 1));
    assert!(!evolve(true, 4));
    assert!(evolve(false, 3));
    assert!(!evolve(false, 2));
}

#[test]
fn count_live_neighbors_interior_of_full_grid_is_eight() {
    let g = all_live(5, 4);
    for row in 1..3 {
        for col in 1..4 {
            assert_eq!(count_live_neighbors(&g, row, col, BoundaryMode::Clamped), 8);
        }
    }
}

#[test]
fn count_live_neighbors_corner_clamped() {
    let g = all_live(3, 3);
    assert_eq!(count_live_neighbors(&g, 0, 0, BoundaryMode::Clamped), 3);
    assert_eq!(count_live_neighbors(&g, 0, 1, BoundaryMode::Clamped), 5);
}

#[test]
fn count_live_neighbors_wrapped_sees_opposite_edge() {
    let g = grid_from(3, 3, vec![
        true, false, false,
        false, false, false,
        false, false, false,
    ]);
    assert_eq!(count_live_neighbors(&g, 2, 2, BoundaryMode::Clamped), 0);
    assert_eq!(count_live_neighbors(&g, 2, 2, BoundaryMode::Wrapped), 1);
}

#[test]
fn count_live_neighbors_degenerate_wrapped_strip_counts_per_offset() {
    // On a one-cell-wide wrapped strip the horizontal offsets land back
    // on the center column, so live cells are counted once per offset,
    // not once per distinct physical cell.
    let g = all_live(1, 3);
    assert_eq!(count_live_neighbors(&g, 0, 0, BoundaryMode::Wrapped), 8);
    assert_eq!(count_live_neighbors(&g, 0, 0, BoundaryMode::Clamped), 1);
}

#[test]
fn cell_neighbors_agrees_with_row_and_column_counting() {
    let g = grid_from(3, 3, vec![
        false, true, false,
        true, true, false,
        false, false, true,
    ]);
    for idx in 0..9 {
        let row = idx / 3;
        let col = idx % 3;
        for mode in [BoundaryMode::Clamped, BoundaryMode::Wrapped] {
            assert_eq!(cell_neighbors(&g, idx, mode), count_live_neighbors(&g, row, col, mode));
        }
    }
}

#[test]
fn cell_neighbors_out_of_range_index_is_zero() {
    let g = all_live(3, 3);
    assert_eq!(cell_neighbors(&g, 9, BoundaryMode::Clamped), 0);
    assert_eq!(cell_neighbors(&g, 1000, BoundaryMode::Wrapped), 0);
}

#[test]
fn step_dead_grid_stays_dead() {
    for mode in [BoundaryMode::Clamped, BoundaryMode::Wrapped] {
        let g = all_dead(4, 5);
        let next = step(&g, mode);
        assert_eq!(next.width, 4);
        assert_eq!(next.height, 5);
        assert_eq!(next.cells, vec![false; 20]);
    }
}

#[test]
fn step_block_is_still_life() {
    let block = |i: usize| {
        let row = i / 4;
        let col = i % 4;
        (1..=2).contains(&row) && (1..=2).contains(&col)
    };
    let g = Grid::new(4, 4, block).unwrap();
    let next = step(&g, BoundaryMode::Clamped);
    assert_eq!(next.cells, g.cells);
    // The block also stands still on a larger grid.
    let wide = |i: usize| {
        let row = i / 6;
        let col = i % 6;
        (1..=2).contains(&row) && (1..=2).contains(&col)
    };
    let g = Grid::new(6, 5, wide).unwrap();
    let next = step(&g, BoundaryMode::Clamped);
    assert_eq!(next.cells, g.cells);
}

#[test]
fn step_lone_center_cell_dies() {
    let g = Grid::new(3, 3, |i: usize| i == 4).unwrap();
    let next = step(&g, BoundaryMode::Clamped);
    assert_eq!(next.cells, vec![false; 9]);
    assert_eq!(next.to_text('.', '#'), "...\n...\n...\n");
}

#[test]
fn step_is_deterministic() {
    let g = grid_from(4, 4, vec![
        false, true, false, false,
        false, false, true, false,
        true, true, true, false,
        false, false, false, false,
    ]);
    for mode in [BoundaryMode::Clamped, BoundaryMode::Wrapped] {
        let first = step(&g, mode);
        let second = step(&g, mode);
        assert_eq!(first.width, second.width);
        assert_eq!(first.height, second.height);
        assert_eq!(first.cells, second.cells);
        assert_eq!(first.to_text('.', '#'), second.to_text('.', '#'));
    }
}

#[test]
fn step_blinker_oscillates() {
    // A horizontal line of three flips to a vertical line and back.
    let g = grid_from(5, 5, vec![
        false, false, false, false, false,
        false, false, false, false, false,
        false, true, true, true, false,
        false, false, false, false, false,
        false, false, false, false, false,
    ]);
    let once = step(&g, BoundaryMode::Clamped);
    assert_eq!(
        once.to_text('.', '#'),
        ".....\n..#..\n..#..\n..#..\n.....\n"
    );
    let twice = step(&once, BoundaryMode::Clamped);
    assert_eq!(twice.cells, g.cells);
}

use game_of_life::cell::Cell;
use game_of_life::error::GridError;
use game_of_life::motif::{cell_count, dead_cells, lay_out, make_cells, CellMotif, MAX_CELLS};
use game_of_life::random::tosses;

const A: Cell = Cell::Alive;
const D: Cell = Cell::Dead;

#[test]
fn cell_count_multiplies() {
    assert_eq!(cell_count(1, 1), Ok(1));
    assert_eq!(cell_count(64, 64), Ok(4096));
    assert_eq!(cell_count(53, 40), Ok(2120));
    assert_eq!(cell_count(65535, 65537), Ok(4294967295));
    assert_eq!(cell_count(u32::MAX, 1), Ok(MAX_CELLS as usize));
}

#[test]
fn cell_count_refuses_zero_before_size() {
    assert_eq!(cell_count(0, 1), Err(GridError::InvalidDimension));
    assert_eq!(cell_count(1, 0), Err(GridError::InvalidDimension));
    assert_eq!(cell_count(0, u32::MAX), Err(GridError::InvalidDimension));
    assert_eq!(cell_count(65536, 65536), Err(GridError::GridTooLarge));
    assert_eq!(cell_count(u32::MAX, 2), Err(GridError::GridTooLarge));
}

#[test]
fn dead_cells_are_dead() {
    assert_eq!(dead_cells(0), vec![]);
    assert_eq!(dead_cells(3), vec![Cell::Dead, Cell::Dead, Cell::Dead]);
}

#[test]
fn lines_on_a_small_grid() {
    assert_eq!(
        lay_out(4, 4, CellMotif::Lines, &[]),
        Ok(vec![A, D, A, D, A, D, A, A, A, D, A, D, A, D, A, D])
    );
    assert_eq!(lay_out(1, 1, CellMotif::Lines, &[]), Ok(vec![A]));
}

#[test]
fn lines_do_not_depend_on_the_shape() {
    let wide = lay_out(21, 2, CellMotif::Lines, &[]).unwrap();
    let tall = lay_out(2, 21, CellMotif::Lines, &[]).unwrap();
    assert_eq!(wide, tall);
    for (i, cell) in wide.iter().enumerate() {
        assert_eq!(*cell == Cell::Alive, i % 2 == 0 || i % 7 == 0);
    }
}

#[test]
fn glider_places() {
    assert_eq!(
        lay_out(4, 3, CellMotif::Spaceship, &[]),
        Ok(vec![A, D, D, D, D, A, A, D, A, A, D, D])
    );
    assert_eq!(
        lay_out(3, 3, CellMotif::Spaceship, &[]),
        Ok(vec![A, D, D, D, A, A, A, A, D])
    );
}

#[test]
fn glider_errors() {
    assert_eq!(lay_out(4, 2, CellMotif::Spaceship, &[]), Err(GridError::PatternTooSmall));
    assert_eq!(lay_out(1, 1, CellMotif::Spaceship, &[]), Err(GridError::PatternTooSmall));
    assert_eq!(lay_out(0, 9, CellMotif::Spaceship, &[]), Err(GridError::InvalidDimension));
    assert_eq!(make_cells(4, 2, CellMotif::Spaceship), Err(GridError::PatternTooSmall));
}

#[test]
fn random_reads_one_draw_for_each_cell() {
    let draws = [false, true, true, false, true, true];
    assert_eq!(lay_out(2, 2, CellMotif::Random, &draws), Ok(vec![D, A, A, D]));
    assert_eq!(lay_out(3, 2, CellMotif::Random, &draws), Ok(vec![D, A, A, D, A, A]));
    assert_eq!(lay_out(7, 1, CellMotif::Random, &draws), Err(GridError::TooFewDraws));
    assert_eq!(lay_out(0, 1, CellMotif::Random, &draws), Err(GridError::InvalidDimension));
}

#[test]
fn make_cells_agrees_with_lay_out_where_chance_has_no_part() {
    for (width, height) in [(1, 1), (3, 3), (8, 8), (5, 9), (64, 64)] {
        assert_eq!(
            make_cells(width, height, CellMotif::Lines),
            lay_out(width, height, CellMotif::Lines, &[])
        );
        assert_eq!(
            make_cells(width, height, CellMotif::Spaceship),
            lay_out(width, height, CellMotif::Spaceship, &[])
        );
    }
}

#[test]
fn make_cells_random_has_one_cell_for_each_position() {
    assert_eq!(make_cells(12, 5, CellMotif::Random).unwrap().len(), 60);
    assert_eq!(make_cells(0, 5, CellMotif::Random), Err(GridError::InvalidDimension));
    assert_eq!(
        make_cells(65536, 65536, CellMotif::Random),
        Err(GridError::GridTooLarge)
    );
}

#[test]
fn tosses_come_in_the_number_asked_for() {
    assert_eq!(tosses(0).len(), 0);
    assert_eq!(tosses(1).len(), 1);
    assert_eq!(tosses(1000).len(), 1000);
}

#[test]
fn tosses_fall_both_ways() {
    let draws = tosses(4096);
    let heads = draws.iter().filter(|b| **b).count();
    assert!(heads > 1024 && heads < 3072, "{}", heads);
}

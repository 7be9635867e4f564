use game_of_life::cell::Cell;
use game_of_life::torus::wrap;

#[test]
fn rule_table_row_by_row() {
    // a live cell with fewer than two live neighbours dies
    assert_eq!(Cell::Alive.next_state(0), Cell::Dead);
    assert_eq!(Cell::Alive.next_state(1), Cell::Dead);
    // with two or three it lives on
    assert_eq!(Cell::Alive.next_state(2), Cell::Alive);
    assert_eq!(Cell::Alive.next_state(3), Cell::Alive);
    // with more than three it dies
    for n in 4..=8 {
        assert_eq!(Cell::Alive.next_state(n), Cell::Dead);
    }
    // a dead cell comes alive with exactly three
    assert_eq!(Cell::Dead.next_state(3), Cell::Alive);
    // and stays dead with any other number
    for n in [0, 1, 2, 4, 5, 6, 7, 8] {
        assert_eq!(Cell::Dead.next_state(n), Cell::Dead);
    }
}

#[test]
fn rule_beyond_eight_neighbours() {
    assert_eq!(Cell::Alive.next_state(9), Cell::Dead);
    assert_eq!(Cell::Alive.next_state(255), Cell::Dead);
    assert_eq!(Cell::Dead.next_state(255), Cell::Dead);
}

#[test]
fn toggle_flips_and_flips_back() {
    let mut cell = Cell::Dead;
    cell.toggle();
    assert_eq!(cell, Cell::Alive);
    cell.toggle();
    assert_eq!(cell, Cell::Dead);
}

#[test]
fn is_alive_tells_the_states_apart() {
    assert!(Cell::Alive.is_alive());
    assert!(!Cell::Dead.is_alive());
}

#[test]
fn glyphs_are_the_hollow_and_the_filled_square() {
    assert_eq!(Cell::Dead.glyph(), '◻');
    assert_eq!(Cell::Alive.glyph(), '◼');
    assert_eq!(Cell::Dead.glyph(), '\u{25FB}');
    assert_eq!(Cell::Alive.glyph(), '\u{25FC}');
}

#[test]
fn wrap_keeps_what_is_in_range() {
    for coord in 0..5 {
        assert_eq!(wrap(coord, 5), coord as usize);
    }
    assert_eq!(wrap(0, 1), 0);
}

#[test]
fn wrap_one_step_off_either_end() {
    assert_eq!(wrap(-1, 5), 4);
    assert_eq!(wrap(5, 5), 0);
    assert_eq!(wrap(-1, 1), 0);
    assert_eq!(wrap(1, 1), 0);
    assert_eq!(wrap(-1, 40), 39);
    assert_eq!(wrap(53, 53), 0);
}

#[test]
fn wrap_any_number_of_times_round() {
    assert_eq!(wrap(-5, 5), 0);
    assert_eq!(wrap(-6, 5), 4);
    assert_eq!(wrap(-11, 5), 4);
    assert_eq!(wrap(12, 5), 2);
    assert_eq!(wrap(10, 5), 0);
    assert_eq!(wrap(isize::MAX, 2), 1);
    assert_eq!(wrap(isize::MIN, 2), 0);
    assert_eq!(wrap(isize::MIN, 3), (isize::MIN.rem_euclid(3)) as usize);
    assert_eq!(wrap(isize::MIN, isize::MAX), (isize::MAX - 1) as usize);
    assert_eq!(wrap(isize::MAX, isize::MAX), 0);
    for coord in -50..50isize {
        for range in 1..9isize {
            assert_eq!(wrap(coord, range), coord.rem_euclid(range) as usize);
            assert_eq!(wrap(coord + range, range), wrap(coord, range));
        }
    }
}

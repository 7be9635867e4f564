use game_of_life::cell::Cell;
use game_of_life::error::GridError;
use game_of_life::model::{count_alive, Model, Msg, CELLULES_HEIGHT, CELLULES_WIDTH};
use game_of_life::universe::Universe;

const A: Cell = Cell::Alive;
const D: Cell = Cell::Dead;

const W: usize = 53;
const H: usize = 40;

fn alive_places(model: &Model) -> Vec<usize> {
    model
        .cellules()
        .iter()
        .enumerate()
        .filter(|(_, cell)| **cell == Cell::Alive)
        .map(|(i, _)| i)
        .collect()
}

fn with_alive(places: &[usize]) -> Model {
    let mut model = Model::new();
    for place in places {
        assert!(*place < W * H);
        assert!(model.update(Msg::ToggleCellule(*place)));
    }
    model
}

#[test]
fn new_model_is_dead_and_still() {
    let model = Model::new();
    assert_eq!(CELLULES_WIDTH, 53);
    assert_eq!(CELLULES_HEIGHT, 40);
    assert_eq!(model.width(), 53);
    assert_eq!(model.height(), 40);
    assert_eq!(model.cellules().len(), 2120);
    assert!(model.cellules().iter().all(|cell| *cell == Cell::Dead));
    assert!(!model.is_active());
}

#[test]
fn tick_does_nothing_until_started() {
    let mut model = with_alive(&[W + 1, W + 2, W + 3]);
    assert!(!model.update(Msg::Tick));
    assert_eq!(alive_places(&model), vec![W + 1, W + 2, W + 3]);
    assert!(!model.update(Msg::Start));
    assert!(model.is_active());
    assert_eq!(alive_places(&model), vec![W + 1, W + 2, W + 3]);
    assert!(model.update(Msg::Tick));
    assert_eq!(alive_places(&model), vec![2, W + 2, 2 * W + 2]);
    assert!(!model.update(Msg::Stop));
    assert!(!model.is_active());
    assert!(!model.update(Msg::Tick));
    assert_eq!(alive_places(&model), vec![2, W + 2, 2 * W + 2]);
}

#[test]
fn step_advances_whether_running_or_not() {
    let mut model = with_alive(&[W + 1, W + 2, W + 3]);
    assert!(model.update(Msg::Step));
    assert!(!model.is_active());
    assert_eq!(alive_places(&model), vec![2, W + 2, 2 * W + 2]);
    model.update(Msg::Start);
    assert!(model.update(Msg::Step));
    assert!(model.is_active());
    assert_eq!(alive_places(&model), vec![W + 1, W + 2, W + 3]);
}

#[test]
fn toggle_message_flips_one_cell_and_back() {
    let mut model = Model::new();
    assert!(model.update(Msg::ToggleCellule(0)));
    assert!(model.update(Msg::ToggleCellule(2119)));
    assert_eq!(alive_places(&model), vec![0, 2119]);
    assert!(model.update(Msg::ToggleCellule(0)));
    assert_eq!(alive_places(&model), vec![2119]);
    assert!(model.update(Msg::ToggleCellule(2119)));
    assert!(alive_places(&model).is_empty());
}

#[test]
fn reset_kills_every_cell_and_keeps_the_flag() {
    let mut model = with_alive(&[5, 77, 2000]);
    model.update(Msg::Start);
    assert!(model.update(Msg::Reset));
    assert!(alive_places(&model).is_empty());
    assert!(model.is_active());
    assert_eq!(model.cellules().len(), 2120);
    model.reset();
    assert!(alive_places(&model).is_empty());
}

#[test]
fn random_message_keeps_dimensions_and_flag() {
    let mut model = Model::new();
    model.update(Msg::Start);
    assert!(model.update(Msg::Random));
    assert!(model.is_active());
    assert_eq!(model.width(), 53);
    assert_eq!(model.height(), 40);
    assert_eq!(model.cellules().len(), 2120);
    let alive = alive_places(&model).len();
    assert!(alive > 530 && alive < 1590, "{}", alive);
    let first: Vec<Cell> = model.cellules().clone();
    model.random_mutate();
    assert_ne!(&first, model.cellules());
}

#[test]
fn reseed_follows_the_draws() {
    let mut model = Model::new();
    let mut draws = vec![false; 2120];
    draws[3] = true;
    draws[2119] = true;
    assert_eq!(model.reseed(&draws), Ok(()));
    assert_eq!(alive_places(&model), vec![3, 2119]);
    draws[3] = false;
    draws.push(true);
    assert_eq!(model.reseed(&draws), Ok(()));
    assert_eq!(alive_places(&model), vec![2119]);
}

#[test]
fn reseed_with_too_few_draws_changes_nothing() {
    let mut model = with_alive(&[9]);
    let draws = vec![true; 2119];
    assert_eq!(model.reseed(&draws), Err(GridError::TooFewDraws));
    assert_eq!(alive_places(&model), vec![9]);
}

#[test]
fn row_col_as_idx_wraps_each_coordinate() {
    let model = Model::new();
    assert_eq!(model.row_col_as_idx(0, 0), 0);
    assert_eq!(model.row_col_as_idx(1, 2), 55);
    assert_eq!(model.row_col_as_idx(39, 52), 2119);
    assert_eq!(model.row_col_as_idx(-1, -1), 2119);
    assert_eq!(model.row_col_as_idx(40, 53), 0);
    assert_eq!(model.row_col_as_idx(-1, 0), 39 * 53);
    assert_eq!(model.row_col_as_idx(0, -1), 52);
    assert_eq!(model.row_col_as_idx(41, 54), 54);
    assert_eq!(model.row_col_as_idx(-81, 107), 39 * 53 + 1);
}

#[test]
fn neighbors_are_the_eight_directions_once_each() {
    // one live cell at (5, 7): it is a neighbour of each of the eight cells
    // around it, in exactly one direction
    let model = with_alive(&[5 * W + 7]);
    let at = |row: isize, col: isize| -> Vec<usize> {
        model
            .neighbors(row, col)
            .iter()
            .enumerate()
            .filter(|(_, cell)| **cell == Cell::Alive)
            .map(|(k, _)| k)
            .collect()
    };
    // order: below, below right, below left, above, above right, above left, left, right
    assert_eq!(at(4, 7), vec![0]);
    assert_eq!(at(4, 6), vec![1]);
    assert_eq!(at(4, 8), vec![2]);
    assert_eq!(at(6, 7), vec![3]);
    assert_eq!(at(6, 6), vec![4]);
    assert_eq!(at(6, 8), vec![5]);
    assert_eq!(at(5, 8), vec![6]);
    assert_eq!(at(5, 6), vec![7]);
    assert_eq!(at(5, 7), Vec::<usize>::new());
    assert_eq!(at(9, 9), Vec::<usize>::new());
}

#[test]
fn neighbors_wrap_around_the_edges() {
    let model = with_alive(&[39 * W + 52]);
    let around = model.neighbors(0, 0);
    assert_eq!(count_alive(&around), 1);
    assert_eq!(around[5], Cell::Alive);
    let around = model.neighbors(40, 53);
    assert_eq!(around[5], Cell::Alive);
    let around = model.neighbors(-40, -53);
    assert_eq!(around[5], Cell::Alive);
}

#[test]
fn neighbors_of_the_farthest_coordinates() {
    // isize::MAX and isize::MIN name places of the grid like any other
    let model = with_alive(&[0]);
    let row = (isize::MAX.rem_euclid(40)) as usize;
    let col = (isize::MAX.rem_euclid(53)) as usize;
    let near = model.neighbors(row as isize, col as isize);
    assert_eq!(model.neighbors(isize::MAX, isize::MAX), near);
    let row = isize::MIN.rem_euclid(40);
    let col = isize::MIN.rem_euclid(53);
    assert_eq!(model.neighbors(isize::MIN, isize::MIN), model.neighbors(row, col));
    assert_eq!(
        model.row_col_as_idx(isize::MIN, isize::MAX),
        (row as usize) * 53 + isize::MAX.rem_euclid(53) as usize
    );
}

#[test]
fn count_alive_counts() {
    assert_eq!(count_alive(&[D; 8]), 0);
    assert_eq!(count_alive(&[A; 8]), 8);
    assert_eq!(count_alive(&[A, D, D, A, D, D, D, A]), 3);
    assert_eq!(count_alive(&[D, D, D, D, D, D, D, A]), 1);
}

#[test]
fn blinker_at_the_corner_turns_across_the_edges() {
    // a horizontal blinker through (0, 0): (0, 52), (0, 0), (0, 1)
    let mut model = with_alive(&[52, 0, 1]);
    model.step();
    assert_eq!(alive_places(&model), vec![0, W, 39 * W]);
    model.step();
    assert_eq!(alive_places(&model), vec![0, 1, 52]);
}

#[test]
fn model_and_universe_agree_generation_by_generation() {
    // an R-pentomino and a glider, far enough from each other to start with
    let places: [(u32, u32); 10] = [
        (10, 11),
        (10, 12),
        (11, 10),
        (11, 11),
        (12, 11),
        (0, 0),
        (1, 1),
        (1, 2),
        (2, 0),
        (2, 1),
    ];
    let flat: Vec<usize> = places
        .iter()
        .map(|(row, col)| (*row as usize) * W + *col as usize)
        .collect();
    let mut model = with_alive(&flat);
    let mut universe = Universe::blank(53, 40).unwrap();
    universe.set_cells(&places);
    assert_eq!(model.cellules().as_slice(), universe.get_cells());
    for generation in 0..60 {
        model.step();
        universe.tick();
        assert_eq!(
            model.cellules().as_slice(),
            universe.get_cells(),
            "generation {}",
            generation
        );
    }
    assert!(!alive_places(&model).is_empty());
}

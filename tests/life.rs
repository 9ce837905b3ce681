use life_core::{CellCoord, Life};

fn sorted(life: &Life) -> Vec<CellCoord> {
    let mut cells = life.state_as_list();
    cells.sort();
    cells
}

#[test]
fn app_json_life() {
    let life = Life::glider();
    let cells_list = sorted(&life);
    assert_eq!(cells_list, vec![[-1, 1], [-1, 2], [0, 0], [0, 2], [1, 2]]);
}

#[test]
fn mod_json_life() {
    let life = Life::glider();
    let cells_list = sorted(&life);
    assert_eq!(cells_list, vec![[-1, 1], [-1, 2], [0, 0], [0, 2], [1, 2]]);
}

#[test]
fn app_test_tub() {
    let mut life = Life::tub();
    let expected = life.clone();
    for _ in 0..17 {
        life.tick();
        assert_eq!(life, expected);
    }
}

#[test]
fn mod_test_tub() {
    let mut life = Life::tub();
    let expected = life.clone();
    for _ in 0..17 {
        life.tick();
        assert_eq!(life, expected);
    }
}

#[test]
fn app_test_translate() {
    let mut life = Life::tub();
    life.translate(&[5, 5]);
    life.translate(&[5, 5]);
    assert_eq!(sorted(&life), vec![[9, 10], [10, 9], [10, 11], [11, 10]]);
}

#[test]
fn mod_test_translate() {
    let mut life = Life::tub();
    life.translate(&[5, 5]);
    life.translate(&[5, 5]);
    assert_eq!(sorted(&life), vec![[9, 10], [10, 9], [10, 11], [11, 10]]);
}

#[test]
fn app_test_blinker_tick() {
    let mut life = Life::blinker();
    life.tick();
    assert_eq!(sorted(&life), vec![[-1, 0], [0, 0], [1, 0]]);
    life.tick();
    assert_eq!(sorted(&life), vec![[0, -1], [0, 0], [0, 1]]);
}

#[test]
fn mod_test_blinker_tick() {
    let mut life = Life::blinker();
    life.tick();
    assert_eq!(sorted(&life), vec![[-1, 0], [0, 0], [1, 0]]);
    life.tick();
    assert_eq!(sorted(&life), vec![[0, -1], [0, 0], [0, 1]]);
}

#[test]
fn translate_and_back_restores_board() {
    let mut life = Life::glider();
    let expected = life.clone();
    life.translate(&[-7, 12]);
    assert_ne!(life, expected);
    life.translate(&[7, -12]);
    assert_eq!(life, expected);
}

#[test]
fn flip_rows_negates_rows_and_twice_restores() {
    let mut life = Life::glider();
    let expected = life.clone();
    life.flip_rows();
    assert_eq!(sorted(&life), vec![[-1, 2], [0, 0], [0, 2], [1, 1], [1, 2]]);
    life.flip_rows();
    assert_eq!(life, expected);
}

#[test]
fn toggle_twice_restores_board() {
    let mut life = Life::tub();
    let expected = life.clone();
    life.toggle_cell([3, 4]);
    assert_eq!(sorted(&life), vec![[-1, 0], [0, -1], [0, 1], [1, 0], [3, 4]]);
    life.toggle_cell([3, 4]);
    assert_eq!(life, expected);
    life.toggle_cell([0, 1]);
    assert_eq!(sorted(&life), vec![[-1, 0], [0, -1], [1, 0]]);
    life.toggle_cell([0, 1]);
    assert_eq!(life, expected);
}

#[test]
fn empty_board_stays_empty() {
    let mut life = Life::empty();
    life.tick();
    assert!(life.state_as_list().is_empty());
}

#[test]
fn lone_cell_dies_and_block_stays() {
    let mut life = Life::new(&[[4, 4]]);
    life.tick();
    assert!(life.state_as_list().is_empty());
    let mut block = Life::new(&[[0, 0], [0, 1], [1, 0], [1, 1]]);
    let expected = block.clone();
    block.tick();
    assert_eq!(block, expected);
}

#[test]
fn glider_moves_diagonally_in_four_steps() {
    let mut life = Life::glider();
    let mut expected = Life::glider();
    expected.translate(&[-1, 1]);
    for _ in 0..4 {
        life.tick();
    }
    assert_eq!(life, expected);
}

#[test]
fn new_and_add_cells_ignore_duplicates() {
    let mut life = Life::new(&[[1, 1], [1, 1], [2, 2]]);
    assert_eq!(sorted(&life), vec![[1, 1], [2, 2]]);
    life.add_cells(&[[2, 2], [3, 3]]);
    assert_eq!(sorted(&life), vec![[1, 1], [2, 2], [3, 3]]);
    life.clear();
    assert!(life.state_as_list().is_empty());
}

#[test]
fn equality_ignores_order() {
    let a = Life::new(&[[1, 2], [3, 4]]);
    let b = Life::new(&[[3, 4], [1, 2]]);
    assert_eq!(a, b);
    assert_ne!(a, Life::new(&[[1, 2]]));
}

#[test]
fn neighbour_rules() {
    let life = Life::new(&[[0, -1], [0, 0], [0, 1]]);
    assert!(life.cell_birth(&[1, 0]));
    assert!(!life.cell_birth(&[1, 2]));
    assert!(life.cell_survive(&[0, 0]));
    assert!(!life.cell_survive(&[0, 1]));
    assert!(life.is_alive(&[0, 1]));
    assert!(!life.is_alive(&[1, 1]));
    let adjs = Life::adjecents(&[5, -5]);
    assert_eq!(
        adjs,
        [[4, -6], [4, -5], [4, -4], [5, -6], [5, -4], [6, -6], [6, -5], [6, -4]]
    );
}

#[test]
fn step_in_phases() {
    let mut life = Life::blinker();
    life.save_spawns();
    life.kill_cells();
    assert_eq!(sorted(&life), vec![[0, 0]]);
    life.insert_saved();
    assert_eq!(sorted(&life), vec![[-1, 0], [0, 0], [1, 0]]);
}

#[test]
fn cells_within_keeps_rectangle() {
    let life = Life::new(&[[0, 0], [2, 3], [5, 5], [-1, 2]]);
    let mut inside = life.cells_within(&[0, 0], &[2, 3]);
    inside.sort();
    assert_eq!(inside, vec![[0, 0], [2, 3]]);
}

#[test]
fn from_bytes_decodes_pairs() {
    let life = Life::from_bytes(b"[[1,2],[-3,4],[1,2]]").unwrap();
    assert_eq!(sorted(&life), vec![[-3, 4], [1, 2]]);
    assert!(Life::from_bytes(b"[[1,2],[3]]").is_none());
    assert!(Life::from_bytes(b"").is_none());
}

#[test]
fn fits_tick_near_range_end() {
    let life = Life::new(&[[i32::MAX - 2, 0]]);
    assert!(life.fits_tick());
    let life = Life::new(&[[i32::MAX - 1, 0]]);
    assert!(!life.fits_tick());
}

#[test]
fn cells_within_gives_each_cell_once() {
    let life = Life::new(&[[1, 1], [1, 2], [1, 1], [9, 9]]);
    let mut inside = life.cells_within(&[0, 0], &[5, 5]);
    inside.sort();
    assert_eq!(inside, vec![[1, 1], [1, 2]]);
}

#[test]
fn union_joins_boards() {
    let a = Life::new(&[[0, 0], [1, 1]]);
    let b = Life::new(&[[1, 1], [2, 2]]);
    let u = a.union(b);
    assert_eq!(sorted(&u), vec![[0, 0], [1, 1], [2, 2]]);
}

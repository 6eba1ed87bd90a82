use ai2048_lib::grid::{Grid, Move};

#[test]
fn grid_can_create_empty_grid() {
    let expected =
        Grid::from_log([[0, 0, 0, 0], [0, 0, 0, 0], [0, 0, 0, 0], [0, 0, 0, 0]]).unwrap();

    let actual = Grid::default();

    assert_eq!(expected, actual);
}

#[test]
fn grid_can_create_grid_from_human_input() {
    let expected: [[u8; 4]; 4] = [[0, 1, 2, 3], [4, 5, 6, 7], [8, 9, 10, 11], [12, 13, 14, 15]];

    let actual = Grid::from_human([
        [0, 2, 4, 8],
        [16, 32, 64, 128],
        [256, 512, 1024, 2048],
        [4096, 8192, 16384, 32768],
    ]);

    assert!(actual.is_some());
    assert_eq!(expected, actual.unwrap().unpack_log());
}

#[test]
fn grid_can_return_none_on_invalid_input() {
    let result = Grid::from_human([[0, 1, 2, 3], [4, 5, 6, 7], [8, 9, 10, 11], [12, 13, 14, 15]]);

    assert!(result.is_none());
}

#[test]
fn grid_can_add_random_tile() {
    let grid = Grid::default().add_random_tile();

    let count = grid.unpack_log().iter().flatten().filter(|&&v| v == 1 || v == 2).count();

    assert_eq!(1, count);
}

#[test]
fn grid_can_make_move_left() {
    let grid = Grid::from_human([[2, 2, 4, 4], [0, 2, 2, 0], [0, 2, 2, 2], [2, 0, 0, 2]]).unwrap();
    let expected: [[u8; 4]; 4] = [[2, 3, 0, 0], [2, 0, 0, 0], [2, 1, 0, 0], [2, 0, 0, 0]];

    assert_eq!(expected, grid.make_move(Move::Left).unpack_log());
}

#[test]
fn grid_can_make_move_right() {
    let grid = Grid::from_human([[2, 2, 4, 4], [0, 2, 2, 0], [0, 2, 2, 2], [2, 0, 0, 2]]).unwrap();
    let expected: [[u8; 4]; 4] = [[0, 0, 2, 3], [0, 0, 0, 2], [0, 0, 1, 2], [0, 0, 0, 2]];

    assert_eq!(expected, grid.make_move(Move::Right).unpack_log());
}

#[test]
fn grid_can_make_move_up() {
    let grid = Grid::from_human([[2, 2, 4, 4], [0, 2, 2, 0], [0, 2, 2, 2], [2, 0, 0, 2]]).unwrap();
    let expected: [[u8; 4]; 4] = [[2, 2, 2, 2], [0, 1, 2, 2], [0, 0, 0, 0], [0, 0, 0, 0]];

    assert_eq!(expected, grid.make_move(Move::Up).unpack_log());
}

#[test]
fn grid_can_make_move_down() {
    let grid = Grid::from_human([[2, 2, 4, 4], [0, 2, 2, 0], [0, 2, 2, 2], [2, 0, 0, 2]]).unwrap();
    let expected: [[u8; 4]; 4] = [[0, 0, 0, 0], [0, 0, 0, 0], [0, 1, 2, 2], [2, 2, 2, 2]];

    assert_eq!(expected, grid.make_move(Move::Down).unpack_log());
}

#[test]
fn can_get_possible_grids_with2() {
    let grid = Grid::from_human([[0, 8, 8, 8], [8, 8, 0, 8], [8, 8, 8, 0], [8, 0, 8, 8]]).unwrap();

    let expected = vec![
        Grid::from_human([[2, 8, 8, 8], [8, 8, 0, 8], [8, 8, 8, 0], [8, 0, 8, 8]]).unwrap(),
        Grid::from_human([[0, 8, 8, 8], [8, 8, 2, 8], [8, 8, 8, 0], [8, 0, 8, 8]]).unwrap(),
        Grid::from_human([[0, 8, 8, 8], [8, 8, 0, 8], [8, 8, 8, 2], [8, 0, 8, 8]]).unwrap(),
        Grid::from_human([[0, 8, 8, 8], [8, 8, 0, 8], [8, 8, 8, 0], [8, 2, 8, 8]]).unwrap(),
    ];

    let actual = grid.random_moves_with2();

    assert_eq!(expected, actual);
}

#[test]
fn can_get_possible_grids_with4() {
    let grid = Grid::from_human([[0, 8, 8, 8], [8, 8, 0, 8], [8, 8, 8, 0], [8, 0, 8, 8]]).unwrap();

    let expected = vec![
        Grid::from_human([[4, 8, 8, 8], [8, 8, 0, 8], [8, 8, 8, 0], [8, 0, 8, 8]]).unwrap(),
        Grid::from_human([[0, 8, 8, 8], [8, 8, 4, 8], [8, 8, 8, 0], [8, 0, 8, 8]]).unwrap(),
        Grid::from_human([[0, 8, 8, 8], [8, 8, 0, 8], [8, 8, 8, 4], [8, 0, 8, 8]]).unwrap(),
        Grid::from_human([[0, 8, 8, 8], [8, 8, 0, 8], [8, 8, 8, 0], [8, 4, 8, 8]]).unwrap(),
    ];

    let actual = grid.random_moves_with4();

    assert_eq!(expected, actual);
}

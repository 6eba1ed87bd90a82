use ai2048_lib::board::Board;
use ai2048_lib::grid::{Grid, Move};

const HUMAN: [[u32; 4]; 4] =
    [[0, 2, 4, 8], [16, 32, 64, 128], [256, 512, 1024, 2048], [4096, 8192, 16384, 32768]];

#[test]
fn can_create_empty_board() {
    let expected =
        Board::from_human([[0, 0, 0, 0], [0, 0, 0, 0], [0, 0, 0, 0], [0, 0, 0, 0]]).unwrap();

    let actual = Board::default();

    assert_eq!(expected, actual);
}

#[test]
fn can_create_empty_grid() {
    let expected =
        Grid::from_human([[0, 0, 0, 0], [0, 0, 0, 0], [0, 0, 0, 0], [0, 0, 0, 0]]).unwrap();

    let actual = Grid::default();

    assert_eq!(expected, actual);
    assert_eq!(Grid(0), actual);
}

#[test]
fn can_create_board_from_human_input() {
    let actual = Board::from_human(HUMAN);

    assert!(actual.is_some());
    assert_eq!(HUMAN, actual.unwrap().unpack_human());
}

#[test]
fn can_create_grid_from_human_input() {
    let actual = Grid::from_human(HUMAN);

    assert!(actual.is_some());
    assert_eq!(HUMAN, actual.unwrap().unpack_human());
    assert_eq!(Grid(0x0123_4567_89AB_CDEF), actual.unwrap());
}

#[test]
fn can_return_none_on_invalid_input() {
    let result = Board::from_human([[0, 1, 2, 3], [4, 5, 6, 7], [8, 9, 10, 11], [12, 13, 14, 15]]);

    assert!(result.is_none());
}

#[test]
fn can_add_random_tile() {
    for _ in 0..1000 {
        let mut board = Board::default();
        for _ in 0..8 {
            board = board.add_random_tile();
        }

        let count = board
            .to_grid()
            .unpack_log()
            .iter()
            .flatten()
            .filter(|&&v| v == 1 || v == 2)
            .count();

        assert_eq!(8, count);
    }
}

#[test]
fn can_to_string() {
    let board = Board::from_human(HUMAN).unwrap();

    let mut expected = String::new();
    expected.push_str("     0     2     4     8\n");
    expected.push_str("    16    32    64   128\n");
    expected.push_str("   256   512  1024  2048\n");
    expected.push_str("  4096  8192 16384 32768\n");

    let actual = board.to_string();

    assert_eq!(expected, actual);
}

#[test]
fn can_make_move_left() {
    let board =
        Board::from_human([[2, 2, 4, 4], [0, 2, 2, 0], [0, 2, 2, 2], [2, 0, 0, 2]]).unwrap();
    let expected =
        Board::from_human([[4, 8, 0, 0], [4, 0, 0, 0], [4, 2, 0, 0], [4, 0, 0, 0]]).unwrap();

    let actual = board.make_move(Move::Left);

    assert_eq!(expected, actual);
}

#[test]
fn can_make_move_right() {
    let board =
        Board::from_human([[2, 2, 4, 4], [0, 2, 2, 0], [0, 2, 2, 2], [2, 0, 0, 2]]).unwrap();
    let expected =
        Board::from_human([[0, 0, 4, 8], [0, 0, 0, 4], [0, 0, 2, 4], [0, 0, 0, 4]]).unwrap();

    let actual = board.make_move(Move::Right);

    assert_eq!(expected, actual);
}

#[test]
fn can_make_move_up() {
    let board =
        Board::from_human([[2, 2, 4, 4], [0, 2, 2, 0], [0, 2, 2, 2], [2, 0, 0, 2]]).unwrap();
    let expected =
        Board::from_human([[4, 4, 4, 4], [0, 2, 4, 4], [0, 0, 0, 0], [0, 0, 0, 0]]).unwrap();

    let actual = board.make_move(Move::Up);

    assert_eq!(expected, actual);
}

#[test]
fn can_make_move_down() {
    let board =
        Board::from_human([[2, 2, 4, 4], [0, 2, 2, 0], [0, 2, 2, 2], [2, 0, 0, 2]]).unwrap();
    let expected =
        Board::from_human([[0, 0, 0, 0], [0, 0, 0, 0], [0, 2, 4, 4], [4, 4, 4, 4]]).unwrap();

    let actual = board.make_move(Move::Down);

    assert_eq!(expected, actual);
}

#[test]
fn can_possible_boards_with2() {
    let board =
        Board::from_human([[0, 8, 8, 8], [8, 8, 0, 8], [8, 8, 8, 0], [8, 0, 8, 8]]).unwrap();

    let expected = vec![
        Board::from_human([[2, 8, 8, 8], [8, 8, 0, 8], [8, 8, 8, 0], [8, 0, 8, 8]]).unwrap(),
        Board::from_human([[0, 8, 8, 8], [8, 8, 2, 8], [8, 8, 8, 0], [8, 0, 8, 8]]).unwrap(),
        Board::from_human([[0, 8, 8, 8], [8, 8, 0, 8], [8, 8, 8, 2], [8, 0, 8, 8]]).unwrap(),
        Board::from_human([[0, 8, 8, 8], [8, 8, 0, 8], [8, 8, 8, 0], [8, 2, 8, 8]]).unwrap(),
    ];

    let actual = board.ai_moves_with2();

    assert_eq!(expected, actual);
}

#[test]
fn can_possible_boards_with4() {
    let board =
        Board::from_human([[0, 8, 8, 8], [8, 8, 0, 8], [8, 8, 8, 0], [8, 0, 8, 8]]).unwrap();

    let expected = vec![
        Board::from_human([[4, 8, 8, 8], [8, 8, 0, 8], [8, 8, 8, 0], [8, 0, 8, 8]]).unwrap(),
        Board::from_human([[0, 8, 8, 8], [8, 8, 4, 8], [8, 8, 8, 0], [8, 0, 8, 8]]).unwrap(),
        Board::from_human([[0, 8, 8, 8], [8, 8, 0, 8], [8, 8, 8, 4], [8, 0, 8, 8]]).unwrap(),
        Board::from_human([[0, 8, 8, 8], [8, 8, 0, 8], [8, 8, 8, 0], [8, 4, 8, 8]]).unwrap(),
    ];

    let actual = board.ai_moves_with4();

    assert_eq!(expected, actual);
}

#[test]
fn can_make_player_moves() {
    let board =
        Board::from_human([[0, 0, 0, 2], [0, 2, 0, 2], [4, 0, 0, 2], [0, 0, 0, 2]]).unwrap();

    let mut player_moves = board.to_grid().player_moves().into_iter();

    assert_eq!(
        Some((
            Move::Left,
            Grid::from_human([[2, 0, 0, 0], [4, 0, 0, 0], [4, 2, 0, 0], [2, 0, 0, 0]]).unwrap()
        )),
        player_moves.next()
    );
    assert_eq!(
        Some((
            Move::Right,
            Grid::from_human([[0, 0, 0, 2], [0, 0, 0, 4], [0, 0, 4, 2], [0, 0, 0, 2],]).unwrap()
        )),
        player_moves.next()
    );
    assert_eq!(
        Some((
            Move::Up,
            Grid::from_human([[4, 2, 0, 4], [0, 0, 0, 4], [0, 0, 0, 0], [0, 0, 0, 0],]).unwrap()
        )),
        player_moves.next()
    );
    assert_eq!(
        Some((
            Move::Down,
            Grid::from_human([[0, 0, 0, 0], [0, 0, 0, 0], [0, 0, 0, 4], [4, 2, 0, 4],]).unwrap()
        )),
        player_moves.next()
    );
    assert_eq!(None, player_moves.next());
}

#[test]
fn can_detect_terminal_state() {
    let terminal_board =
        Board::from_human([[4, 16, 8, 4], [8, 128, 32, 2], [2, 32, 16, 8], [4, 2, 4, 2]]).unwrap();
    let normal_board =
        Board::from_human([[0, 8, 8, 8], [8, 8, 0, 8], [8, 8, 8, 0], [8, 0, 8, 8]]).unwrap();

    assert!(terminal_board.is_terminal());
    assert!(!normal_board.is_terminal());
}

#[test]
fn can_transpose() {
    let board = Board::from_human([
        [1, 2, 4, 8],
        [16, 32, 64, 128],
        [256, 512, 1024, 2048],
        [4096, 8192, 16384, 32768],
    ])
    .unwrap();
    let expected = Board::from_human([
        [1, 16, 256, 4096],
        [2, 32, 512, 8192],
        [4, 64, 1024, 16384],
        [8, 128, 2048, 32768],
    ])
    .unwrap();
    let transposed = board.transpose();
    assert_eq!(transposed, expected);
}

#[test]
fn can_to_rows_from_rows() {
    let board = Board::from_human([
        [1, 2, 4, 8],
        [16, 32, 64, 128],
        [256, 512, 1024, 2048],
        [4096, 8192, 16384, 32768],
    ])
    .unwrap();

    let roundtrip = Board::from_grid(Grid::from_rows(board.to_grid().rows()));

    assert_eq!(roundtrip, board);
}

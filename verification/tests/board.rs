use ai2048_lib::board::Board;
use ai2048_lib::grid::Move;

const HUMAN: [[u32; 4]; 4] =
    [[0, 2, 4, 8], [16, 32, 64, 128], [256, 512, 1024, 2048], [4096, 8192, 16384, 32768]];

const NOT_TILES: [[u32; 4]; 4] = [[0, 1, 2, 3], [4, 5, 6, 7], [8, 9, 10, 11], [12, 13, 14, 15]];

const HOLES: [[u32; 4]; 4] = [[0, 8, 8, 8], [8, 8, 0, 8], [8, 8, 8, 0], [8, 0, 8, 8]];

fn with_tiles(tiles: [(usize, usize, u32); 1]) -> Board {
    let mut human = HOLES;
    for (r, c, n) in tiles {
        human[r][c] = n;
    }
    Board::new(&human).unwrap()
}

#[test]
fn board_can_create_empty_board() {
    let expected = Board::new(&[[0, 0, 0, 0], [0, 0, 0, 0], [0, 0, 0, 0], [0, 0, 0, 0]]).unwrap();

    let actual = Board::default();

    assert_eq!(expected, actual);
    assert_eq!(&[[0u8; 4]; 4], actual.get_grid());
    assert_eq!(Board::empty(), actual);
}

#[test]
fn board_can_create_board_from_human_input() {
    let expected: [[u8; 4]; 4] = [[0, 1, 2, 3], [4, 5, 6, 7], [8, 9, 10, 11], [12, 13, 14, 15]];

    let actual = Board::new(&HUMAN);

    assert!(actual.is_some());
    assert_eq!(&expected, actual.unwrap().get_grid());
}

#[test]
fn board_can_return_none_on_invalid_input() {
    let result = Board::new(&NOT_TILES);

    assert!(result.is_none());
}

#[test]
fn board_can_add_random_tile() {
    for _ in 0..1000 {
        let mut board = Board::default();
        for _ in 0..8 {
            board = board.add_random_tile();
        }

        let count = board.get_grid().iter().flatten().filter(|&&v| v == 1 || v == 2).count();

        assert_eq!(8, count);
    }
}

#[test]
fn board_can_make_move_left() {
    let board = Board::new(&[[2, 2, 4, 4], [0, 2, 2, 0], [0, 2, 2, 2], [2, 0, 0, 2]]).unwrap();
    let expected = Board::new(&[[4, 8, 0, 0], [4, 0, 0, 0], [4, 2, 0, 0], [4, 0, 0, 0]]).unwrap();

    let actual = board.make_move(Move::Left);

    assert_eq!(expected, actual);
}

#[test]
fn board_can_make_move_right() {
    let board = Board::new(&[[2, 2, 4, 4], [0, 2, 2, 0], [0, 2, 2, 2], [2, 0, 0, 2]]).unwrap();
    let expected = Board::new(&[[0, 0, 4, 8], [0, 0, 0, 4], [0, 0, 2, 4], [0, 0, 0, 4]]).unwrap();

    let actual = board.make_move(Move::Right);

    assert_eq!(expected, actual);
}

#[test]
fn board_can_make_move_up() {
    let board = Board::new(&[[2, 2, 4, 4], [0, 2, 2, 0], [0, 2, 2, 2], [2, 0, 0, 2]]).unwrap();
    let expected = Board::new(&[[4, 4, 4, 4], [0, 2, 4, 4], [0, 0, 0, 0], [0, 0, 0, 0]]).unwrap();

    let actual = board.make_move(Move::Up);

    assert_eq!(expected, actual);
}

#[test]
fn board_can_make_move_down() {
    let board = Board::new(&[[2, 2, 4, 4], [0, 2, 2, 0], [0, 2, 2, 2], [2, 0, 0, 2]]).unwrap();
    let expected = Board::new(&[[0, 0, 0, 0], [0, 0, 0, 0], [0, 2, 4, 4], [4, 4, 4, 4]]).unwrap();

    let actual = board.make_move(Move::Down);

    assert_eq!(expected, actual);
}

#[test]
fn board_can_possible_boards_with2() {
    let board = Board::new(&HOLES).unwrap();

    let expected = vec![
        with_tiles([(0, 0, 2)]),
        with_tiles([(1, 2, 2)]),
        with_tiles([(2, 3, 2)]),
        with_tiles([(3, 1, 2)]),
    ];

    let actual = board.ai_moves_with2();

    assert_eq!(expected, actual);
}

#[test]
fn board_can_possible_boards_with4() {
    let board = Board::new(&HOLES).unwrap();

    let expected = vec![
        with_tiles([(0, 0, 4)]),
        with_tiles([(1, 2, 4)]),
        with_tiles([(2, 3, 4)]),
        with_tiles([(3, 1, 4)]),
    ];

    let actual = board.ai_moves_with4();

    assert_eq!(expected, actual);
}

#[test]
fn can_get_possible_boards_with2() {
    let board = Board::new(&[[0, 8, 8, 8], [8, 8, 0, 8], [8, 8, 8, 0], [8, 0, 8, 8]]).unwrap();

    let expected = vec![
        Board::new(&[[2, 8, 8, 8], [8, 8, 0, 8], [8, 8, 8, 0], [8, 0, 8, 8]]).unwrap(),
        Board::new(&[[0, 8, 8, 8], [8, 8, 2, 8], [8, 8, 8, 0], [8, 0, 8, 8]]).unwrap(),
        Board::new(&[[0, 8, 8, 8], [8, 8, 0, 8], [8, 8, 8, 2], [8, 0, 8, 8]]).unwrap(),
        Board::new(&[[0, 8, 8, 8], [8, 8, 0, 8], [8, 8, 8, 0], [8, 2, 8, 8]]).unwrap(),
    ];

    let actual = board.ai_moves_with2();

    assert_eq!(expected, actual);
}

#[test]
fn can_get_possible_boards_with4() {
    let board = Board::new(&[[0, 8, 8, 8], [8, 8, 0, 8], [8, 8, 8, 0], [8, 0, 8, 8]]).unwrap();

    let expected = vec![
        Board::new(&[[4, 8, 8, 8], [8, 8, 0, 8], [8, 8, 8, 0], [8, 0, 8, 8]]).unwrap(),
        Board::new(&[[0, 8, 8, 8], [8, 8, 4, 8], [8, 8, 8, 0], [8, 0, 8, 8]]).unwrap(),
        Board::new(&[[0, 8, 8, 8], [8, 8, 0, 8], [8, 8, 8, 4], [8, 0, 8, 8]]).unwrap(),
        Board::new(&[[0, 8, 8, 8], [8, 8, 0, 8], [8, 8, 8, 0], [8, 4, 8, 8]]).unwrap(),
    ];

    let actual = board.ai_moves_with4();

    assert_eq!(expected, actual);
}

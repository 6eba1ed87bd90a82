use ai2048_lib::board::Board;
use ai2048_lib::grid::Grid;

const HUMAN: [[u32; 4]; 4] =
    [[0, 2, 4, 8], [16, 32, 64, 128], [256, 512, 1024, 2048], [4096, 8192, 16384, 32768]];

fn expected_text() -> String {
    let mut expected = String::new();
    expected.push_str("     0     2     4     8\n");
    expected.push_str("    16    32    64   128\n");
    expected.push_str("   256   512  1024  2048\n");
    expected.push_str("  4096  8192 16384 32768\n");
    expected
}

#[test]
fn game_logic_can_to_string() {
    let grid = Grid::from_human(HUMAN).unwrap();

    let actual = grid.to_string();

    assert_eq!(expected_text(), actual);
}

#[test]
fn board_can_to_string() {
    let board = Board::new(&HUMAN).unwrap();

    let actual = board.to_string();

    assert_eq!(expected_text(), actual);
}

#[test]
fn grid_can_to_string() {
    let grid = Grid::from_log([[0, 1, 2, 3], [4, 5, 6, 7], [8, 9, 10, 11], [12, 13, 14, 15]])
        .unwrap();

    let actual = grid.to_string();

    assert_eq!(expected_text(), actual);
}

#[test]
fn can_parse_from_display() {
    let grid = Grid::from_human([
        [1, 2, 4, 8],
        [16, 32, 64, 128],
        [256, 512, 1024, 2048],
        [4096, 8192, 16384, 32768],
    ])
    .unwrap();

    let back = Grid::from_display(&grid.to_string()).unwrap();

    assert_eq!(grid, back);
}

#[test]
fn from_display_reads_numbers_between_any_other_bytes() {
    let text = "2,4;8 16\t32x64-128/256\n512 1024 2048 4096 8192 16384 32768 0";
    let expected = Grid::from_human([
        [2, 4, 8, 16],
        [32, 64, 128, 256],
        [512, 1024, 2048, 4096],
        [8192, 16384, 32768, 0],
    ])
    .unwrap();

    assert_eq!(Some(expected), Grid::from_display(text));
    assert_eq!(Some(expected), Grid::from_display_bytes(text.as_bytes()));
}

#[test]
fn from_display_takes_leading_zeros_and_bytes_that_are_no_text() {
    let mut bytes: Vec<u8> = Vec::new();
    for _ in 0..15 {
        bytes.extend_from_slice(b"\xff0002\xfe");
    }
    bytes.extend_from_slice(b"00000000000000000000004");
    let expected = Grid::from_log([[1, 1, 1, 1], [1, 1, 1, 1], [1, 1, 1, 1], [1, 1, 1, 2]]).unwrap();

    assert_eq!(Some(expected), Grid::from_display_bytes(&bytes));
}

#[test]
fn from_display_wants_sixteen_numbers() {
    let fifteen = "2 2 2 2 2 2 2 2 2 2 2 2 2 2 2";
    let seventeen = "2 2 2 2 2 2 2 2 2 2 2 2 2 2 2 2 2";

    assert_eq!(None, Grid::from_display(""));
    assert_eq!(None, Grid::from_display(fifteen));
    assert_eq!(None, Grid::from_display(seventeen));
    assert!(Grid::from_display("2 2 2 2 2 2 2 2 2 2 2 2 2 2 2 2").is_some());
}

#[test]
fn from_display_refuses_numbers_that_are_no_tiles() {
    assert_eq!(None, Grid::from_display("2 2 2 2 2 2 2 2 2 2 2 2 2 2 2 3"));
    assert_eq!(None, Grid::from_display("2 2 2 2 2 2 2 2 2 2 2 2 2 2 2 5"));
    assert_eq!(None, Grid::from_display("2 2 2 2 2 2 2 2 2 2 2 2 2 2 2 65536"));
    assert_eq!(None, Grid::from_display("2 2 2 2 2 2 2 2 2 2 2 2 2 2 2 32769"));
    assert_eq!(None, Grid::from_display("2 2 2 2 2 2 2 2 2 2 2 2 2 2 2 4294967296"));
    assert_eq!(
        None,
        Grid::from_display("2 2 2 2 2 2 2 2 2 2 2 2 2 2 2 99999999999999999999999999999999")
    );
}

#[test]
fn to_string_writes_empty_cells_as_zero() {
    let expected = "     0     0     0     0\n".repeat(4);

    assert_eq!(expected, Grid::default().to_string());
    assert_eq!(expected, Board::empty().to_string());
}

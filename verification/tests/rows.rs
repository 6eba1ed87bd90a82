use ai2048_lib::column::{move_row_down, move_row_up, Column};
use ai2048_lib::engine::GameEngine;
use ai2048_lib::grid::{Grid, Move};
use ai2048_lib::moves::MOVES;
use ai2048_lib::row::{u16_to_u8x4, u8x4_to_u16, Row};
use ai2048_lib::slide::{move_row_left, move_row_left_raw, move_row_right, move_row_right_raw};

#[test]
fn pack_puts_the_first_tile_in_the_highest_bits() {
    assert_eq!(Ok(Row(0x1234)), Row::pack([1, 2, 3, 4]));
    assert_eq!(Ok(Row(0xF00F)), Row::pack([15, 0, 0, 15]));
    assert_eq!(Some(0x1234), u8x4_to_u16([1, 2, 3, 4]));
    assert_eq!([1, 2, 3, 4], u16_to_u8x4(0x1234));
    assert_eq!([1, 2, 3, 4], Row(0x1234).unpack());
    assert_eq!(Row(0xABCD), Row::from_index(0xABCD));
}

#[test]
fn pack_names_the_first_rank_that_does_not_fit() {
    assert_eq!(Err(0), Row::pack([16, 0, 0, 0]));
    assert_eq!(Err(2), Row::pack([1, 15, 16, 255]));
    assert_eq!(Err(3), Row::pack([0, 0, 0, 200]));
    assert_eq!(None, u8x4_to_u16([0, 16, 0, 0]));
    assert_eq!(Some(0xFFFF), u8x4_to_u16([15, 15, 15, 15]));
}

#[test]
fn unpack_and_pack_are_inverse_on_every_row() {
    for bits in 0..=u16::MAX {
        assert_eq!(Ok(Row(bits)), Row::pack(Row(bits).unpack()));
        assert_eq!(Some(bits), u8x4_to_u16(u16_to_u8x4(bits)));
    }
}

#[test]
fn reverse_mirrors_the_tiles_and_undoes_itself() {
    assert_eq!(Row(0x4321), Row(0x1234).reverse());
    for bits in 0..=u16::MAX {
        assert_eq!(Row(bits), Row(bits).reverse().reverse());
    }
}

#[test]
fn column_holds_one_tile_in_each_lane() {
    assert_eq!(Column(0x0001_0002_0003_0004), Column::from_row(Row(0x1234)));
    assert_eq!(Column(0x000F_000F_000F_000F), Column::from_row(Row(0xFFFF)));
    assert_eq!(Column(0), Column::from_row(Row(0)));
}

#[test]
fn slide_merges_each_tile_once_from_the_left() {
    assert_eq!([2, 3, 0, 0], move_row_left_raw([1, 1, 2, 2]));
    assert_eq!([2, 1, 0, 0], move_row_left_raw([1, 1, 1, 0]));
    assert_eq!([2, 2, 0, 0], move_row_left_raw([1, 1, 1, 1]));
    assert_eq!([2, 0, 0, 0], move_row_left_raw([1, 0, 0, 1]));
    assert_eq!([3, 1, 2, 0], move_row_left_raw([0, 3, 1, 2]));
    assert_eq!([1, 2, 1, 2], move_row_left_raw([1, 2, 1, 2]));
    assert_eq!([0, 0, 0, 0], move_row_left_raw([0, 0, 0, 0]));
    assert_eq!([0, 0, 1, 2], move_row_right_raw([1, 1, 1, 0]));
    assert_eq!([0, 0, 2, 2], move_row_right_raw([1, 1, 1, 1]));
    assert_eq!([0, 0, 0, 5], move_row_right_raw([4, 0, 4, 0]));
}

#[test]
fn slide_keeps_two_tiles_of_32768_at_32768() {
    assert_eq!([15, 0, 0, 0], move_row_left_raw([15, 15, 0, 0]));
    assert_eq!([15, 15, 0, 0], move_row_left_raw([15, 15, 15, 15]));
    assert_eq!(Row(0xF000), move_row_left(Row(0x0F0F)));
    assert_eq!(Row(0x000F), move_row_right(Row(0x0F0F)));
    assert_eq!([15, 15, 0, 0], move_row_left_raw([14, 14, 15, 0]));
}

#[test]
fn vertical_moves_of_a_row_are_its_slides_as_columns() {
    assert_eq!(Column(0x0002_0003_0000_0000), move_row_up(Row(0x1122)));
    assert_eq!(Column(0x0000_0000_0002_0003), move_row_down(Row(0x1122)));
}

#[test]
fn tables_agree_with_the_slide_rule_on_every_row() {
    let engine = GameEngine::new();
    for bits in 0..=u16::MAX {
        let row = Row(bits);
        assert_eq!(move_row_left(row), engine.lookup_left(row));
        assert_eq!(move_row_right(row), engine.lookup_right(row));
        assert_eq!(move_row_up(row), engine.lookup_up(row));
        assert_eq!(move_row_down(row), engine.lookup_down(row));
        assert_eq!(Column::from_row(move_row_left(row)), engine.lookup_up(row));
        assert_eq!(Column::from_row(move_row_right(row)), engine.lookup_down(row));
        assert_eq!(move_row_left(row.reverse()).reverse(), engine.lookup_right(row));
    }
}

#[test]
fn engine_moves_as_the_grid_does() {
    let engine = GameEngine::new();
    let mut grid = Grid(0x0123_4567_89AB_CDEF);
    for round in 0..200u64 {
        for mv in MOVES {
            assert_eq!(grid.make_move(mv), engine.make_move(grid, mv));
        }
        assert_eq!(grid.player_moves(), engine.player_moves(grid));
        assert_eq!(grid.game_over(), engine.game_over(grid));
        grid = Grid(grid.0.wrapping_mul(6364136223846793005).wrapping_add(round | 1));
    }
    let stuck =
        Grid::from_human([[4, 16, 8, 4], [8, 128, 32, 2], [2, 32, 16, 8], [4, 2, 4, 2]]).unwrap();
    assert!(engine.game_over(stuck));
    assert!(engine.player_moves(stuck).is_empty());
    assert_eq!(stuck, engine.make_move(stuck, Move::Up));
}

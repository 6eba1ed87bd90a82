use ai2048_lib::grid::Grid;
use ai2048_lib::heuristic::{adjacent_row, empty_tile_count_row, lines, monotonicity_row, row_terms};
use ai2048_lib::human::{human, to_log};
use ai2048_lib::row::Row;
use ai2048_lib::engine::GameEngine;
use ai2048_lib::grid::Move;
use ai2048_lib::searcher::{
    calculate_depth, chance_step, player_step, ChanceStep, PlayerStep, SearchStats, MAX_DEPTH,
    MIN_DEPTH,
};

#[test]
fn depth_of_the_baseline_grid_is_eight() {
    let grid =
        Grid::from_human([[8, 2, 4, 2], [32, 32, 4, 2], [512, 128, 64, 2], [1024, 256, 16, 0]])
            .unwrap();

    assert_eq!(10, grid.count_distinct_tiles());
    assert_eq!(1024, grid.biggest_tile());
    assert_eq!(8, calculate_depth(grid, 16));
    assert_eq!(8, calculate_depth(grid, MAX_DEPTH));
    assert_eq!(8, calculate_depth(grid, 255));
    assert_eq!(5, calculate_depth(grid, 5));
}

#[test]
fn depth_stays_between_its_limits() {
    assert_eq!(MIN_DEPTH, calculate_depth(Grid::default(), MAX_DEPTH));
    assert_eq!(MIN_DEPTH, calculate_depth(Grid::default(), MIN_DEPTH));
    let full = Grid(0x0123_4567_89AB_CDEF);
    assert_eq!(15, full.count_distinct_tiles());
    assert_eq!(32768, full.biggest_tile());
    assert_eq!(MAX_DEPTH, calculate_depth(full, MAX_DEPTH));
    assert_eq!(15, calculate_depth(full, 20));
    assert_eq!(3, calculate_depth(full, 3));
}

#[test]
fn depth_grows_as_the_biggest_tile_passes_4096_and_8192() {
    let upto = |top: u32| {
        Grid::from_human([[2, 4, 8, 16], [32, 64, 128, 256], [0, 0, 0, 0], [0, 0, 0, top]])
            .unwrap()
    };

    assert_eq!(7, calculate_depth(upto(4096), MAX_DEPTH));
    assert_eq!(8, calculate_depth(upto(8192), MAX_DEPTH));
    assert_eq!(9, calculate_depth(upto(16384), MAX_DEPTH));
    assert_eq!(9, calculate_depth(upto(32768), MAX_DEPTH));
    assert_eq!(6, calculate_depth(upto(256), MAX_DEPTH));
}

#[test]
fn distinct_tiles_leave_out_empty_cells_and_repeats() {
    assert_eq!(0, Grid::default().count_distinct_tiles());
    assert_eq!(1, Grid(0x1111_1111_1111_1111).count_distinct_tiles());
    assert_eq!(1, Grid(0x0000_0000_0000_000F).count_distinct_tiles());
    assert_eq!(2, Grid(0x1010_0202_0000_1122).count_distinct_tiles());
    assert_eq!(0, Grid::default().biggest_tile());
    assert_eq!(2, Grid(0x0000_0100_0000_0000).biggest_tile());
}

#[test]
fn ranks_and_numbers() {
    assert_eq!(Some(0), to_log(0));
    assert_eq!(Some(0), to_log(1));
    assert_eq!(Some(1), to_log(2));
    assert_eq!(Some(15), to_log(32768));
    assert_eq!(None, to_log(3));
    assert_eq!(None, to_log(5));
    assert_eq!(None, to_log(6));
    assert_eq!(None, to_log(65536));
    assert_eq!(None, to_log(u32::MAX));
    assert_eq!(None, to_log(1 << 31));
    for rank in 1..=15u8 {
        assert_eq!(1u32 << rank, human(rank));
        assert_eq!(Some(rank), to_log(human(rank)));
    }
    assert_eq!(0, human(0));
}

#[test]
fn from_human_takes_1_for_an_empty_cell_and_refuses_what_is_no_tile() {
    let ones = Grid::from_human([[1, 1, 1, 1], [0, 0, 0, 0], [1, 0, 1, 0], [0, 1, 0, 1]]);
    assert_eq!(Some(Grid::default()), ones);
    assert_eq!(None, Grid::from_human([[0, 0, 0, 0], [0, 0, 0, 0], [0, 0, 0, 0], [0, 0, 0, 5]]));
    assert_eq!(None, Grid::from_human([[65536, 0, 0, 0], [0, 0, 0, 0], [0, 0, 0, 0], [0; 4]]));
    assert_eq!(None, Grid::from_log([[0, 0, 0, 0], [0, 0, 0, 0], [0, 0, 16, 0], [0, 0, 0, 0]]));
}

#[test]
fn row_terms_of_some_rows() {
    assert_eq!(4, empty_tile_count_row(Row(0x0000)));
    assert_eq!(2, empty_tile_count_row(Row(0x0a0b)));
    assert_eq!(0, empty_tile_count_row(Row(0x1234)));

    assert_eq!(0, adjacent_row(Row(0x0000)));
    assert_eq!(2, adjacent_row(Row(0x1122)));
    assert_eq!(1, adjacent_row(Row(0x1112)));
    assert_eq!(2, adjacent_row(Row(0x1111)));
    assert_eq!(1, adjacent_row(Row(0x2110)));
    assert_eq!(0, adjacent_row(Row(0x1010)));
    assert_eq!(1, adjacent_row(Row(0x0033)));

    assert_eq!(0, monotonicity_row(Row(0x0000)));
    assert_eq!(0, monotonicity_row(Row(0x1234)));
    assert_eq!(0, monotonicity_row(Row(0x4321)));
    assert_eq!(-15, monotonicity_row(Row(0x1210)));
    assert_eq!(-16, monotonicity_row(Row(0x0201)));
    assert_eq!(-50625, monotonicity_row(Row(0x0F0F)));
    assert_eq!(-2 * 50625, monotonicity_row(Row(0xF0F0)) - 50625);

    let terms = row_terms(Row(0x0221));
    assert_eq!(1, terms.empty);
    assert_eq!(1, terms.adjacent);
    assert_eq!(-15, terms.monotonicity);
}

#[test]
fn lines_are_the_rows_then_the_columns() {
    let grid = Grid(0x0123_4567_89AB_CDEF);
    let expected = [
        Row(0x0123),
        Row(0x4567),
        Row(0x89AB),
        Row(0xCDEF),
        Row(0x048C),
        Row(0x159D),
        Row(0x26AE),
        Row(0x37BF),
    ];

    assert_eq!(expected, lines(grid));
}

#[test]
fn stats_add_counter_by_counter() {
    let a = SearchStats { nodes: 1, cache_size: 2, cache_hits: 3, evals: 4, average: 5 };
    let b = SearchStats { nodes: 10, cache_size: 20, cache_hits: 30, evals: 40, average: 50 };
    let sum = SearchStats { nodes: 11, cache_size: 22, cache_hits: 33, evals: 44, average: 55 };

    assert_eq!(sum, a.add(b));
    assert_eq!(a, a.add(SearchStats::default()));
    assert_eq!(
        SearchStats { nodes: 0, cache_size: 0, cache_hits: 0, evals: 0, average: 0 },
        SearchStats::default()
    );
}

fn counted(nodes: u32, cache_hits: u32, evals: u32, average: u32) -> SearchStats {
    SearchStats { nodes, cache_size: 0, cache_hits, evals, average }
}

#[test]
fn player_step_looks_at_depth_and_likelihood_first() {
    let engine = GameEngine::new();
    let grid = Grid::from_human([[0, 0, 0, 2], [0, 2, 0, 2], [4, 0, 0, 2], [0, 0, 0, 2]]).unwrap();
    let stuck =
        Grid::from_human([[4, 16, 8, 4], [8, 128, 32, 2], [2, 32, 16, 8], [4, 2, 4, 2]]).unwrap();

    for &(depth, too_unlikely) in &[(0u8, false), (0, true), (3, true)] {
        for &cached in &[false, true] {
            for &position in &[grid, stuck] {
                let mut stats = SearchStats::default();
                let step = player_step(&engine, position, depth, too_unlikely, cached, &mut stats);
                assert_eq!(PlayerStep::Evaluate, step);
                assert_eq!(counted(1, 0, 1, 0), stats);
            }
        }
    }
}

#[test]
fn player_step_takes_the_cache_before_it_looks_at_the_moves() {
    let engine = GameEngine::new();
    let stuck =
        Grid::from_human([[4, 16, 8, 4], [8, 128, 32, 2], [2, 32, 16, 8], [4, 2, 4, 2]]).unwrap();
    let mut stats = counted(7, 2, 3, 1);

    assert_eq!(PlayerStep::CacheHit, player_step(&engine, stuck, 1, false, true, &mut stats));
    assert_eq!(counted(8, 3, 3, 1), stats);
    assert_eq!(PlayerStep::GameOver, player_step(&engine, stuck, 1, false, false, &mut stats));
    assert_eq!(counted(9, 3, 3, 1), stats);
}

#[test]
fn player_step_expands_to_the_moves_in_canonical_order() {
    let engine = GameEngine::new();
    let grid = Grid::from_human([[0, 0, 0, 2], [0, 2, 0, 2], [4, 0, 0, 2], [0, 0, 0, 2]]).unwrap();
    let mut stats = SearchStats::default();

    let step = player_step(&engine, grid, 2, false, false, &mut stats);

    assert_eq!(PlayerStep::Expand(grid.player_moves()), step);
    assert_eq!(counted(1, 0, 0, 0), stats);
    match step {
        PlayerStep::Expand(moves) => {
            let order: Vec<Move> = moves.iter().map(|&(mv, _)| mv).collect();
            assert_eq!(vec![Move::Left, Move::Right, Move::Up, Move::Down], order);
        }
        _ => unreachable!(),
    }

    let column = Grid::from_human([[2, 0, 0, 0], [4, 0, 0, 0], [8, 0, 0, 0], [16, 0, 0, 0]]).unwrap();
    match player_step(&engine, column, 1, false, false, &mut stats) {
        PlayerStep::Expand(moves) => {
            assert_eq!(vec![(Move::Right, column.make_move(Move::Right))], moves);
        }
        _ => unreachable!(),
    }
}

#[test]
fn chance_step_gives_every_new_tile_and_one_level_less() {
    let grid = Grid::from_human([[0, 8, 8, 8], [8, 8, 0, 8], [8, 8, 8, 0], [8, 0, 8, 8]]).unwrap();
    let mut stats = counted(4, 0, 0, 2);

    let step = chance_step(grid, 3, &mut stats);

    assert_eq!(
        ChanceStep {
            empty: 4,
            with2: grid.random_moves_with2(),
            with4: grid.random_moves_with4(),
            depth: 2,
        },
        step
    );
    assert_eq!(counted(5, 0, 0, 3), stats);
    assert_eq!(0, chance_step(grid, 1, &mut stats).depth);
}

#[test]
fn counters_stop_at_the_highest_number() {
    let engine = GameEngine::new();
    let mut stats = counted(u32::MAX, u32::MAX, u32::MAX, u32::MAX);

    player_step(&engine, Grid::default(), 0, false, false, &mut stats);
    player_step(&engine, Grid::default(), 1, false, true, &mut stats);
    chance_step(Grid::default(), 1, &mut stats);

    assert_eq!(counted(u32::MAX, u32::MAX, u32::MAX, u32::MAX), stats);
}

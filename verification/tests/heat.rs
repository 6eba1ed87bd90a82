use ai2048_lib::board::Board;
use ai2048_lib::heat_map::{
    evaluate_board, evaluate_empty_cells, mirror, rotate_cw, HeatMapHeuristic, HEAT_MAP,
};
use std::collections::HashSet;

#[test]
fn can_create_heuristic() {
    let heur = HeatMapHeuristic::new();
    let heat_maps = heur.heat_maps();

    assert_eq!(HEAT_MAP, heat_maps[0]);
    assert_eq!(HEAT_MAP[3][3], heat_maps[1][3][0]);
    assert_eq!(HEAT_MAP[3][3], heat_maps[2][0][0]);
    assert_eq!(HEAT_MAP[3][3], heat_maps[3][0][3]);
    assert_eq!(8, heat_maps.iter().collect::<HashSet<_>>().len());
}

#[test]
fn can_eval() {
    let heur = HeatMapHeuristic::new();

    let board = Board::default().add_random_tile().add_random_tile();

    let eval = heur.eval(&board);

    assert!(eval.is_some());
}

#[test]
fn four_quarter_turns_give_the_map_back() {
    let turned = rotate_cw(&rotate_cw(&rotate_cw(&rotate_cw(&HEAT_MAP))));

    assert_eq!(HEAT_MAP, turned);
    assert_eq!(
        [[5, 2, 0, 0], [8, 3, 1, 0], [16, 4, 2, 1], [128, 6, 4, 3]],
        rotate_cw(&HEAT_MAP)
    );
    assert_eq!(HEAT_MAP, mirror(&mirror(&HEAT_MAP)));
    assert_eq!(
        [[0, 0, 2, 5], [0, 1, 3, 8], [1, 2, 4, 16], [3, 4, 6, 128]],
        mirror(&HEAT_MAP)
    );
}

#[test]
fn a_board_scores_four_to_the_rank_times_the_heat() {
    let empty = Board::empty();
    // Every empty cell counts as four to the power of 0.
    assert_eq!(183, evaluate_board(&empty, &HEAT_MAP));

    let corner = Board::new(&[[0, 0, 0, 0], [0, 0, 0, 0], [0, 0, 0, 0], [0, 0, 0, 4]]).unwrap();
    assert_eq!(183 - 128 + 16 * 128, evaluate_board(&corner, &HEAT_MAP));

    let top = Board::new(&[[32768, 0, 0, 0], [0, 0, 0, 0], [0, 0, 0, 0], [0, 0, 0, 32768]]).unwrap();
    assert_eq!(183 - 128 + (1i64 << 30) * 128, evaluate_board(&top, &HEAT_MAP));
}

#[test]
fn room_counts_empty_cells_and_pairs_that_could_merge() {
    assert_eq!(16, evaluate_empty_cells(&Board::empty()));

    let stuck = Board::new(&[[4, 16, 8, 4], [8, 128, 32, 2], [2, 32, 16, 8], [4, 2, 4, 2]]).unwrap();
    assert_eq!(0, evaluate_empty_cells(&stuck));

    let pairs = Board::new(&[[2, 2, 4, 4], [8, 16, 32, 64], [8, 2, 4, 2], [2, 4, 2, 0]]).unwrap();
    assert_eq!(2 + 1 + 1, evaluate_empty_cells(&pairs));
}

#[test]
fn eval_takes_the_best_map_and_the_penalty() {
    let heur = HeatMapHeuristic::new();

    let stuck = Board::new(&[[4, 16, 8, 4], [8, 128, 32, 2], [2, 32, 16, 8], [4, 2, 4, 2]]).unwrap();
    assert_eq!(None, heur.eval(&stuck));

    let corner = Board::new(&[[4, 0, 0, 0], [0, 0, 0, 0], [0, 0, 0, 0], [0, 0, 0, 0]]).unwrap();
    assert_eq!(Some(183 - 128 + 16 * 128), heur.eval(&corner));

    let tight = Board::new(&[[2, 4, 2, 4], [4, 2, 4, 2], [2, 4, 2, 4], [4, 2, 4, 0]]).unwrap();
    let best = heur.heat_maps().iter().map(|map| evaluate_board(&tight, map)).max().unwrap();
    assert_eq!(Some(best - 32), heur.eval(&tight));
}

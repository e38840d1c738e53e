use connect4::bit_board::{popcount64, BitBoard};
use connect4::opening_book::Explorer;
use connect4::position_factory::create;
use connect4::reader::line_to_position_score;
use connect4::solver::{Solver, SolverOptions};
use connect4::transposition_table::{
    get_prime_greater_than_or_equal, is_prime, TranspositionTable, TABLE_SIZE,
};

#[test]
fn test_create_empty_board() {
    let b = create("").unwrap();
    assert_eq!(b.position, 0);
    assert_eq!(b.mask, 0);
    assert_eq!(b.move_count, 0);
}

#[test]
fn test_create_move_list() {
    let b = create("2233").unwrap();
    assert_eq!(b.move_count, 4);
    // position holds the side to move: the first player again, whose
    // stones sit at the bottom of columns two and three
    assert_eq!(b.position, (1 << 14) | (1 << 21));
    assert_eq!(b.position ^ b.mask, (1 << 15) | (1 << 22));
}

#[test]
fn test_create_rejects_large_column() {
    assert_eq!(create("7").unwrap_err(), "7 is too large");
    assert_eq!(create("0123456789").unwrap_err(), "7 is too large");
}

#[test]
fn test_create_rejects_non_digit() {
    assert_eq!(create("01x2").unwrap_err(), "x is not a digit");
}

#[test]
fn test_create_rejects_full_column() {
    assert_eq!(create("0000000").unwrap_err(), "Cannot play in column 0 on move 7");
    assert_eq!(
        create("0000001111110").unwrap_err(),
        "Cannot play in column 0 on move 13"
    );
    assert!(create("000000").is_ok());
}

#[test]
fn test_create_rejects_overlong_string() {
    let s: String = std::iter::repeat('0').take(44).collect();
    assert_eq!(create(&s).unwrap_err(), "'value' is too long to parse!");
}

#[test]
fn test_create_rejects_bad_leading_player() {
    let mut s = String::from("3");
    s.push_str(&"0".repeat(42));
    assert_eq!(create(&s).unwrap_err(), "'3' is not a valid starting player");
}

#[test]
fn test_create_rejects_unbalanced_grid() {
    // two first-player stones and none of the second player
    let mut s = String::from("1");
    s.push_str(&"0".repeat(35));
    s.push_str("1100000");
    assert!(create(&s).is_err());
}

#[test]
fn test_create_accepts_balanced_grid() {
    // one stone each, first player to move again
    let mut s = String::from("1");
    s.push_str(&"0".repeat(35));
    s.push_str("1200000");
    let b = create(&s).unwrap();
    assert_eq!(b.move_count, 2);
}

// the occupied-cell count always equals the move count
#[test]
fn test_mask_popcount_matches_move_count() {
    for moves in ["", "3", "2233", "20304", "0112232336"] {
        let b = create(moves).unwrap();
        assert_eq!(b.mask.count_ones() as u8, b.move_count, "position {}", moves);
    }
}

// the mover's stones always lie within the occupied cells
#[test]
fn test_position_within_mask() {
    for moves in ["", "3", "2233", "20304", "0112232336"] {
        let b = create(moves).unwrap();
        assert_eq!(b.position & !b.mask, 0, "position {}", moves);
    }
}

// the canonical key does not change when the board is mirrored
#[test]
fn test_symmetric_key_mirror() {
    let pairs = [("2233", "4433"), ("20304", "46362"), ("0112232336", "6554434330")];
    for (a, b) in pairs {
        let pa = create(a).unwrap();
        let pb = create(b).unwrap();
        assert_eq!(pa.symmetric_key(), pb.symmetric_key(), "positions {} {}", a, b);
    }
}

#[test]
fn test_symmetric_key_at_most_key() {
    let b = create("012").unwrap();
    assert!(b.symmetric_key() <= b.key());
    assert_eq!(b.key(), b.position + b.mask);
}

// rendering a position and parsing it back gives the same position
#[test]
fn test_stringify_round_trip() {
    for moves in ["", "3", "2233", "20304", "0101013", "6554434331"] {
        let b = create(moves).unwrap();
        let s = b.stringify();
        let parsed = create(&s).unwrap();
        assert_eq!(parsed.position, b.position, "position {}", moves);
        assert_eq!(parsed.mask, b.mask, "position {}", moves);
        assert_eq!(parsed.move_count, b.move_count, "position {}", moves);
    }
}

#[test]
fn test_stringify_empty_board() {
    let b = create("").unwrap();
    let expected = format!("1{}", "0".repeat(42));
    assert_eq!(b.stringify(), expected);
}

#[test]
fn test_stringify_one_stone() {
    let b = create("0").unwrap();
    // the second player moves next; the first stone sits bottom left
    let expected = format!("2{}1000000", "0".repeat(35));
    assert_eq!(b.stringify(), expected);
}

#[test]
fn test_can_play_and_play() {
    let mut b = create("").unwrap();
    for _ in 0..6 {
        assert!(b.can_play(5));
        b.play(5);
    }
    assert!(!b.can_play(5));
    assert!(b.can_play(4));
    assert_eq!(b.move_count, 6);
}

#[test]
fn test_can_win_next_move() {
    assert!(create("112233").unwrap().can_win_next_move());
    assert!(!create("2233").unwrap().can_win_next_move());
}

#[test]
fn test_get_moves_with_weight_empty_when_two_threats() {
    // the side to move faces playable threats in two columns
    let b = create("20304").unwrap();
    assert_eq!(b.get_moves_with_weight(), vec![]);
}

#[test]
fn test_get_moves_with_weight_forced_block() {
    // the opponent threatens the bottom row on the right: only the
    // blocking column remains
    let b = create("040506").unwrap();
    let moves = b.get_moves_with_weight();
    assert_eq!(moves.len(), 1);
    assert_eq!(moves[0].0, 3);
    assert_eq!(moves[0].1, 1);
}

#[test]
fn test_get_moves_with_weight_counts_threats() {
    let b = create("").unwrap();
    let moves = b.get_moves_with_weight();
    assert_eq!(moves.len(), 7);
    for (col, weight) in moves.iter() {
        assert!(*col < 7);
        assert_eq!(*weight, 0);
    }
    // bottom stones in columns two and three: dropping in column four
    // builds threats at both ends of the row
    let b = create("2233").unwrap();
    let moves = b.get_moves_with_weight();
    let w4 = moves.iter().find(|m| m.0 == 4).unwrap().1;
    assert_eq!(w4, 2);
}

// the solver agrees with the best negated child score
#[test]
fn test_negation_symmetry() {
    let mut solver = Solver::new(None);
    for moves in ["2233", "20304"] {
        let position = create(moves).unwrap();
        let direct = solver.solve(position);
        let children = solver.analyze(position, false);
        let best = children.iter().flatten().max().unwrap();
        assert_eq!(direct, *best, "position {}", moves);
    }
}

// the weak solver agrees with the strong solver on the winner
#[test]
fn test_weak_solve_sign() {
    for moves in ["2233", "20304", "112233"] {
        let mut strong = Solver::new(None);
        let mut weak = Solver::new(Some(SolverOptions { weak: true }));
        let position = create(moves).unwrap();
        let s = strong.solve(position);
        let w = weak.solve(position);
        assert_eq!((s >> 7) - (-s >> 7), (w >> 7) - (-w >> 7), "position {}", moves);
    }
}

#[test]
fn test_analyze_columns() {
    let mut solver = Solver::new(None);
    let b = create("112233").unwrap();
    let scores = solver.analyze(b, false);
    assert_eq!(scores.len(), 7);
    assert_eq!(scores[0], Some(18));
    assert_eq!(scores[4], Some(18));
    assert_eq!(scores[1], Some(17));
    let full = create(FULL_DRAW).unwrap();
    let scores = solver.analyze(full, false);
    assert_eq!(scores, vec![None; 7]);
}

#[test]
fn test_best_move() {
    let mut solver = Solver::new(None);
    assert_eq!(solver.best_move(create("112233").unwrap()), Some(0));
    let full = create(FULL_DRAW).unwrap();
    assert_eq!(solver.best_move(full), None);
}

const FULL_DRAW: &str = "1221122111221122211221112211222112211122112";

#[test]
fn test_transposition_table_put_get() {
    let mut t = TranspositionTable::new();
    assert_eq!(t.get(5), None);
    t.put(5, 7);
    assert_eq!(t.get(5), Some(7));
    // a different key in the same bucket is not mistaken for the stored one
    assert_eq!(t.get(5 + TABLE_SIZE as u64), None);
    t.put(5 + TABLE_SIZE as u64, 9);
    assert_eq!(t.get(5), None);
    assert_eq!(t.get(5 + TABLE_SIZE as u64), Some(9));
}

#[test]
fn test_transposition_table_utilization() {
    let mut t = TranspositionTable::new();
    assert_eq!(t.utilization(), (0, TABLE_SIZE));
    t.put(1, 3);
    t.put(2, 4);
    t.put(2, 5);
    assert_eq!(t.utilization(), (2, TABLE_SIZE));
}

#[test]
fn test_transposition_table_parts_round_trip() {
    let mut t = TranspositionTable::new();
    t.put(123456789, -11);
    let keys = t.keys_vec().clone();
    let values = t.values_vec().clone();
    let rebuilt = TranspositionTable::from_parts(keys, values).unwrap();
    assert_eq!(rebuilt.get(123456789), Some(-11));
    assert!(TranspositionTable::from_parts(vec![], vec![]).is_none());
}

#[test]
fn test_is_prime() {
    assert!(!is_prime(0));
    assert!(!is_prime(1));
    assert!(is_prime(2));
    assert!(is_prime(3));
    assert!(!is_prime(4));
    assert!(is_prime(17));
    assert!(!is_prime(25));
    assert!(!is_prime(91));
    assert!(is_prime(3_000_017));
    assert!(!is_prime(3_000_015));
}

#[test]
fn test_get_prime_greater_than_or_equal() {
    assert_eq!(get_prime_greater_than_or_equal(0), 2);
    assert_eq!(get_prime_greater_than_or_equal(2), 2);
    assert_eq!(get_prime_greater_than_or_equal(10), 11);
    assert_eq!(get_prime_greater_than_or_equal(24), 29);
    assert_eq!(get_prime_greater_than_or_equal(90), 97);
}

#[test]
fn test_line_to_position_score() {
    let (pos, score) = line_to_position_score("2233 18".to_string());
    assert_eq!(pos, "2233");
    assert_eq!(score, 18);
    let (pos, score) = line_to_position_score("20304 -18".to_string());
    assert_eq!(pos, "20304");
    assert_eq!(score, -18);
}

#[test]
fn test_explorer_depth_two() {
    let mut explorer = Explorer::new();
    let start = create("").unwrap();
    explorer.explore(start, String::new(), 2);
    // positions up to two plies, counted once per mirror-canonical key:
    // the empty board, four one-stone boards, twenty-five two-stone boards
    assert_eq!(explorer.visited_count(), 30);
    assert_eq!(explorer.output.len(), 25);
    for s in explorer.output.iter() {
        assert_eq!(s.len(), 2);
        assert!(s.chars().all(|c| ('0'..='6').contains(&c)));
    }
}

#[test]
fn test_explorer_depth_zero() {
    let mut explorer = Explorer::new();
    let start = create("").unwrap();
    explorer.explore(start, String::new(), 0);
    assert_eq!(explorer.visited_count(), 1);
    assert_eq!(explorer.output, vec![String::new()]);
}

#[test]
fn test_solver_weak_flag_draw() {
    let mut weak = Solver::new(Some(SolverOptions { weak: true }));
    let draw = create(FULL_DRAW).unwrap();
    assert_eq!(weak.solve(draw), 0);
}

#[test]
fn test_popcount64() {
    assert_eq!(popcount64(0), 0);
    assert_eq!(popcount64(u64::MAX), 64);
    assert_eq!(popcount64(0b1011), 3);
}

#[test]
fn test_min_max_possible_scores() {
    let b: BitBoard = create("").unwrap();
    assert_eq!(b.min_possible_score(), -21);
    assert_eq!(b.max_possible_score(), 21);
    let b = create("2233").unwrap();
    assert_eq!(b.min_possible_score(), -19);
    assert_eq!(b.max_possible_score(), 19);
    assert_eq!(b.next_min_possible_score(), -18);
    assert_eq!(b.next_max_possible_score(), 18);
}

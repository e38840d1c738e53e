use connect4::position_factory;
use connect4::solver::{Solver, SolverOptions};

// A filled board with twenty-one stones each and no four in a row: the
// two-cell brick pattern, shifted by two columns on every other row.
const FULL_DRAW_GRID: &str = "1221122111221122211221112211222112211122112";

// The same board with the top cell of the third column still empty.
const NEARLY_FULL_GRID: &str = "1220122111221122211221112211222112211122112";

fn run_cases(cases: &[(&str, i8)], weak: bool) {
    let mut solver = Solver::new(Some(SolverOptions { weak }));
    for (moves, expected) in cases {
        let position = position_factory::create(moves).unwrap();
        let actual = solver.solve(position);
        if !weak {
            assert_eq!(*expected, actual, "position {}", moves);
        } else {
            assert_eq!(unit_value(*expected), unit_value(actual), "position {}", moves);
        }
    }
}

fn unit_value(v: i8) -> i8 {
    (v >> 7) - (-v >> 7)
}

// Positions a ply or two from the end of the game: filled and almost
// filled boards are draws.
fn end_cases() -> Vec<(&'static str, i8)> {
    vec![(FULL_DRAW_GRID, 0), (NEARLY_FULL_GRID, 0)]
}

// Positions where the stones already on the board decide the game within
// two plies: an unstoppable double threat for one side or the other.
fn mid_cases() -> Vec<(&'static str, i8)> {
    vec![("20304", -18), ("0101013", 18), ("46362", -18), ("22334", -18)]
}

// Openings with an immediate win available, worth the maximum score.
fn start_easy_cases() -> Vec<(&'static str, i8)> {
    vec![("112233", 18), ("010101", 18)]
}

// Openings decided by building a double threat: winning with the sixth
// stone of the game scores eighteen.
fn start_deep_cases() -> Vec<(&'static str, i8)> {
    vec![("2233", 18), ("4433", 18)]
}

#[test]
fn test_easy_end_games() {
    run_cases(&end_cases(), false);
}

#[test]
fn test_easy_end_games_weak() {
    run_cases(&end_cases(), true);
}

#[test]
fn test_easy_mid_games() {
    run_cases(&mid_cases()[..2], false);
}

#[test]
fn test_easy_mid_games_weak() {
    run_cases(&mid_cases()[..2], true);
}

#[test]
fn test_medium_mid_games() {
    run_cases(&mid_cases()[2..], false);
}

#[test]
fn test_medium_mid_games_weak() {
    run_cases(&mid_cases()[2..], true);
}

#[test]
fn test_easy_start_games() {
    run_cases(&start_easy_cases(), false);
}

#[test]
fn test_easy_start_games_weak() {
    run_cases(&start_easy_cases(), true);
}

#[test]
fn test_medium_start_games() {
    run_cases(&start_deep_cases(), false);
}

#[test]
fn test_medium_start_games_weak() {
    run_cases(&start_deep_cases(), true);
}

#[test]
fn test_hard_start_games() {
    run_cases(&[("2233", 18), ("20304", -18), ("112233", 18)], false);
}

#[test]
fn test_hard_start_games_weak() {
    run_cases(&[("2233", 18), ("20304", -18), ("112233", 18)], true);
}

use vstd::prelude::*;
use crate::bit_board::BitBoard;
use crate::position::{MAX_SCORE, MIN_SCORE};
use crate::transposition_table::TranspositionTable;

verus! {

pub struct SolverOptions {
    pub weak: bool,
}

impl SolverOptions {
    fn new() -> (r: Self)
        ensures
            r.weak == false,
    {
        Self { weak: false }
    }
}

/// Iterative null-window negamax around a transposition table. Scores lie
/// in a band around zero: positive for a side-to-move win, more positive
/// for an earlier win.
pub struct Solver {
    options: SolverOptions,
    transposition_table: TranspositionTable,
    node_count: u64,
}

/// Center preference used to break ties between equally threatening moves.
pub open spec fn center_distance(col: u8) -> int {
    if col >= 3 {
        col - 3
    } else {
        3 - col
    }
}

/// Move ordering: heavier threat counts first, then columns closer to the
/// center.
pub open spec fn move_leq(a: (u8, u8), b: (u8, u8)) -> bool {
    ||| a.1 > b.1
    ||| (a.1 == b.1 && center_distance(a.0) <= center_distance(b.0))
}

/// True iff `a` must come strictly before `b` in the search order.
fn comes_strictly_before(a: (u8, u8), b: (u8, u8)) -> (r: bool)
    ensures
        r == !move_leq(b, a),
{
    let mid: u8 = 3;
    let a_dist = if a.0 >= mid {
        a.0 - mid
    } else {
        mid - a.0
    };
    let b_dist = if b.0 >= mid {
        b.0 - mid
    } else {
        mid - b.0
    };
    a.1 > b.1 || (a.1 == b.1 && a_dist < b_dist)
}

/// Stable selection sort by `move_leq`: repeatedly move the earliest
/// best-ordered entry to the output.
fn sort_moves(v: Vec<(u8, u8)>) -> (r: Vec<(u8, u8)>)
    ensures
        r@.to_multiset() == v@.to_multiset(),
        r@.len() == v@.len(),
        forall|i: int, j: int| 0 <= i <= j < r@.len() ==> move_leq(#[trigger] r@[i], #[trigger] r@[j]),
        forall|x: (u8, u8)| r@.contains(x) ==> v@.contains(x),
{
    broadcast use vstd::seq_lib::group_to_multiset_ensures;

    let ghost orig = v@;
    let mut src = v;
    let mut out: Vec<(u8, u8)> = Vec::new();
    while src.len() > 0
        invariant
            out@.to_multiset().add(src@.to_multiset()) == orig.to_multiset(),
            out@.len() + src@.len() == orig.len(),
            forall|i: int, j: int|
                0 <= i <= j < out@.len() ==> move_leq(#[trigger] out@[i], #[trigger] out@[j]),
            forall|i: int, k: int|
                0 <= i < out@.len() && 0 <= k < src@.len() ==> move_leq(
                    #[trigger] out@[i],
                    #[trigger] src@[k],
                ),
            forall|x: (u8, u8)| out@.contains(x) || src@.contains(x) ==> orig.contains(x),
        decreases src@.len(),
    {
        let mut best: usize = 0;
        let mut j: usize = 1;
        while j < src.len()
            invariant
                best < j <= src@.len(),
                src@.len() > 0,
                forall|k: int| 0 <= k < j ==> move_leq(src@[best as int], #[trigger] src@[k]),
            decreases src@.len() - j,
        {
            if comes_strictly_before(src[j], src[best]) {
                best = j;
            }
            j = j + 1;
        }
        let ghost src_before = src@;
        let ghost out_before = out@;
        let x = src.remove(best);
        proof {
            broadcast use vstd::seq_lib::group_to_multiset_ensures;

            assert(src_before.contains(src_before[best as int]));
            assert(src_before.to_multiset().count(x) > 0);
            assert(orig.to_multiset().count(x) > 0) by {
                assert(out_before.to_multiset().add(src_before.to_multiset()).count(x) > 0);
            }
            assert(orig.contains(x));
        }
        out.push(x);
        proof {
            broadcast use vstd::seq_lib::group_to_multiset_ensures;

            assert(out@.to_multiset() =~= out_before.to_multiset().insert(x));
            assert(src@.to_multiset() =~= src_before.to_multiset().remove(x));
            assert(out@.to_multiset().add(src@.to_multiset()) =~= orig.to_multiset());
        }
    }
    proof {
        broadcast use vstd::seq_lib::group_to_multiset_ensures;

        assert(out@.to_multiset() =~= orig.to_multiset());
        assert forall|x: (u8, u8)| out@.contains(x) implies orig.contains(x) by {
            assert(out@.to_multiset().count(x) > 0);
            assert(orig.to_multiset().count(x) > 0);
        }
    }
    out
}

impl Solver {
    pub closed spec fn wf(self) -> bool {
        self.transposition_table.wf()
    }

    pub closed spec fn weak_spec(self) -> bool {
        self.options.weak
    }

    /// The solver's own transposition table, for contracts.
    pub closed spec fn table_spec(self) -> TranspositionTable {
        self.transposition_table
    }

    /// How many nodes the searches have visited, modulo wrap-around.
    pub closed spec fn node_count_spec(self) -> u64 {
        self.node_count
    }

    pub fn new(options: Option<SolverOptions>) -> (r: Self)
        ensures
            r.wf(),
            r.weak_spec() == if options is Some {
                options->0.weak
            } else {
                false
            },
            r.node_count_spec() == 0,
            forall|i: int|
                0 <= i < crate::transposition_table::TABLE_SIZE
                    ==> r.table_spec().key_seq()[i] == u32::MAX,
            forall|i: int|
                0 <= i < crate::transposition_table::TABLE_SIZE
                    ==> r.table_spec().value_seq()[i] == 0i8,
    {
        Self {
            options: match options {
                Some(o) => o,
                None => SolverOptions::new(),
            },
            transposition_table: TranspositionTable::new(),
            node_count: 0,
        }
    }

    /// The cache of score bounds the searches have learned so far.
    pub fn transposition_table(&self) -> (r: &TranspositionTable)
        requires
            self.wf(),
        ensures
            *r == self.table_spec(),
            r.wf(),
    {
        &self.transposition_table
    }

    /// Exact score of `position` under optimal play by both sides. An
    /// immediately winning position scores the maximum the move count
    /// allows.
    pub fn solve(&mut self, position: BitBoard) -> (r: i8)
        requires
            old(self).wf(),
            position.wf(),
        ensures
            final(self).wf(),
            final(self).weak_spec() == old(self).weak_spec(),
            -24 <= r <= 24,
            position.can_win_next_move_spec() ==> r == position.max_possible_score_spec() && r
                <= MAX_SCORE,
            !position.can_win_next_move_spec() && position.moves_with_weight_spec().len() == 0
                ==> r == position.min_possible_score_spec(),
            !position.can_win_next_move_spec() && position.moves_with_weight_spec().len() != 0
                && position.move_count >= 40 ==> r == 0,
            forall|i: int|
                0 <= i < crate::transposition_table::TABLE_SIZE ==> (final(
                    self).table_spec().value_seq()[i] == old(self).table_spec().value_seq()[i] || (
                1 <= final(self).table_spec().value_seq()[i] <= 92)),
    {
        if position.can_win_next_move() {
            proof {
                // a win needs four stones, so at least six plies were played
                let col = choose|col: u8|
                    col < 7 && position.is_winning_move_spec(col) && position.can_play_spec(col);
                crate::bit_board::lemma_winning_move_needs_six_plies(position, col);
            }
            return position.max_possible_score();
        }
        let mut min = position.min_possible_score();
        let mut max = position.max_possible_score();
        if self.options.weak {
            min = -1;
            max = 1;
        }
        loop
            invariant
                self.wf(),
                self.weak_spec() == old(self).weak_spec(),
                position.wf(),
                !position.can_win_next_move_spec(),
                -24 <= min <= 24,
                -24 <= max <= 24,
                min < max || (min == 0 && max == 0),
                forall|i: int|
                    0 <= i < crate::transposition_table::TABLE_SIZE ==> self.table_spec().value_seq()[i]
                        == old(self).table_spec().value_seq()[i] || (1
                        <= self.table_spec().value_seq()[i] <= 92),
            decreases max - min,
        {
            let mut median = min + (max - min) / 2;
            let half_min = min / 2;
            let half_max = max / 2;
            if median <= 0 && half_min < median {
                median = half_min;
            } else if median >= 0 && half_max > median {
                median = half_max;
            }
            let score = self.negamax(position, median, median + 1);

            if score <= median {
                max = score;
            } else {
                min = score;
            }

            if min >= max {
                return score;
            }
        }
    }

    /// Score of each column: the column's exact score after playing there,
    /// or nothing for a full column.
    #[allow(unused_variables)]
    pub fn analyze(&mut self, position: BitBoard, weak: bool) -> (r: Vec<Option<i8>>)
        requires
            old(self).wf(),
            position.wf(),
        ensures
            final(self).wf(),
            r@.len() == 7,
            forall|c: int|
                0 <= c < 7 ==> ((#[trigger] r@[c]) is None <==> !position.can_play_spec(c as u8)),
            forall|c: int|
                0 <= c < 7 && position.can_play_spec(c as u8) && position.is_winning_move_spec(
                    c as u8,
                ) ==> (#[trigger] r@[c]) == Some((((43 - position.move_count) / 2) as i8)),
            forall|c: int| 0 <= c < 7 && (#[trigger] r@[c]) is Some ==> -24 <= r@[c]->0 <= 24,
    {
        let mut r: Vec<Option<i8>> = Vec::new();
        let mut col: u8 = 0;
        while col < 7
            invariant
                self.wf(),
                position.wf(),
                col <= 7,
                r@.len() == col,
                forall|c: int|
                    0 <= c < col ==> ((#[trigger] r@[c]) is None <==> !position.can_play_spec(
                        c as u8,
                    )),
                forall|c: int|
                    0 <= c < col && position.can_play_spec(c as u8) && position.is_winning_move_spec(
                        c as u8,
                    ) ==> (#[trigger] r@[c]) == Some((((43 - position.move_count) / 2) as i8)),
                forall|c: int| 0 <= c < col && (#[trigger] r@[c]) is Some ==> -24 <= r@[c]->0 <= 24,
            decreases 7 - col,
        {
            if !position.can_play(col) {
                r.push(None);
            } else if position.is_winning_move(col) {
                r.push(Some(position.max_possible_score()));
            } else {
                let mut position2 = position.clone();
                position2.play(col);
                let s = self.solve(position2);
                r.push(Some(-s));
            }
            col = col + 1;
        }
        r
    }

    /// First column whose score in `analyze` is largest; nothing when no
    /// column is playable.
    pub fn best_move(&mut self, position: BitBoard) -> (r: Option<u8>)
        requires
            old(self).wf(),
            position.wf(),
        ensures
            final(self).wf(),
            r is Some ==> r->0 < 7 && position.can_play_spec(r->0),
            r is None ==> forall|c: u8| c < 7 ==> !position.can_play_spec(c),
    {
        let scores = self.analyze(position, false);
        let mut best: Option<u8> = None;
        let mut best_score: i8 = MIN_SCORE;
        let mut col: u8 = 0;
        while col < 7
            invariant
                scores@.len() == 7,
                col <= 7,
                forall|c: int|
                    0 <= c < 7 ==> ((#[trigger] scores@[c]) is None <==> !position.can_play_spec(
                        c as u8,
                    )),
                best is Some ==> best->0 < 7 && position.can_play_spec(best->0),
                best is None ==> forall|c: u8| c < col ==> !position.can_play_spec(c),
            decreases 7 - col,
        {
            match scores[col as usize] {
                Some(s) => {
                    if best.is_none() || s > best_score {
                        best = Some(col);
                        best_score = s;
                    }
                },
                None => (),
            }
            col = col + 1;
        }
        best
    }

    /// One alpha-beta probe. Returns the exact score if it lies inside the
    /// window, otherwise a value on the window edge standing for a bound; a
    /// node with no acceptable move is lost at the latest possible ply, and
    /// a node two plies from a full board is a draw.
    fn negamax(&mut self, position: BitBoard, alpha: i8, beta: i8) -> (r: i8)
        requires
            old(self).wf(),
            position.wf(),
            -24 <= alpha < beta <= 24,
        ensures
            final(self).wf(),
            final(self).weak_spec() == old(self).weak_spec(),
            -24 <= r <= 24,
            position.moves_with_weight_spec().len() == 0 ==> r
                == position.min_possible_score_spec(),
            position.moves_with_weight_spec().len() != 0 && position.move_count >= 40 ==> r == 0,
            forall|i: int|
                0 <= i < crate::transposition_table::TABLE_SIZE ==> (final(
                    self).table_spec().value_seq()[i] == old(self).table_spec().value_seq()[i] || (
                1 <= final(self).table_spec().value_seq()[i] <= 92)),
        decreases 42 - position.move_count,
    {
        self.node_count = self.node_count.wrapping_add(1);

        let next_moves_with_weight = position.get_moves_with_weight();
        if next_moves_with_weight.len() == 0 {
            return position.min_possible_score();
        }
        if position.get_move_count() >= 40 {
            return 0;
        }
        let mut alpha = alpha;
        let mut beta = beta;
        let mut min: i8 = position.next_min_possible_score();
        let mut max: i8 = position.next_max_possible_score();
        let key = position.symmetric_key();
        match self.transposition_table.get(key) {
            Some(val) => {
                // A value outside the two encoded ranges carries no
                // information and is ignored.
                if val > MAX_SCORE - MIN_SCORE + 1 {
                    if val <= 2 * (MAX_SCORE - MIN_SCORE) + 2 {
                        min = val + 2 * MIN_SCORE - MAX_SCORE - 2;
                    }
                } else {
                    if val >= 1 {
                        max = val + MIN_SCORE - 1;
                    }
                }
            },
            None => (),
        }

        if alpha < min {
            alpha = min;
            if alpha >= beta {
                return alpha;
            }
        }

        if beta > max {
            beta = max;
            if alpha >= beta {
                return beta;
            }
        }

        let sorted = sort_moves(next_moves_with_weight);
        let ghost moves = position.moves_with_weight_spec();
        let mut i: usize = 0;
        while i < sorted.len()
            invariant
                self.wf(),
                self.weak_spec() == old(self).weak_spec(),
                position.wf(),
                position.move_count < 40,
                position.moves_with_weight_spec().len() != 0,
                moves == position.moves_with_weight_spec(),
                i <= sorted@.len(),
                -24 <= alpha < beta <= 24,
                forall|x: (u8, u8)| sorted@.contains(x) ==> moves.contains(x),
                forall|k: int|
                    0 <= k < moves.len() ==> (#[trigger] moves[k]).0 < 7 && position.can_play_spec(
                        moves[k].0,
                    ),
                forall|i: int|
                    0 <= i < crate::transposition_table::TABLE_SIZE ==> self.table_spec().value_seq()[i]
                        == old(self).table_spec().value_seq()[i] || (1
                        <= self.table_spec().value_seq()[i] <= 92),
            decreases sorted@.len() - i,
        {
            let col = sorted[i].0;
            proof {
                let x = sorted@[i as int];
                assert(sorted@.contains(x));
                assert(moves.contains(x));
                let k = choose|k: int| 0 <= k < moves.len() && moves[k] == x;
                assert(0 <= k < moves.len() && moves[k] == x);
                assert(moves[k].0 < 7 && position.can_play_spec(moves[k].0));
                assert(col < 7 && position.can_play_spec(col));
            }
            let mut position2 = position.clone();
            position2.play(col);
            let score = -self.negamax(position2, -beta, -alpha);
            if score >= beta {
                self.transposition_table.put(key, score + MAX_SCORE - 2 * MIN_SCORE + 2);
                return score;
            }
            if score > alpha {
                alpha = score;
            }
            i = i + 1;
        }

        self.transposition_table.put(key, alpha - MIN_SCORE + 1);
        return alpha;
    }
}

} // verus!

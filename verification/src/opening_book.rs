use vstd::prelude::*;
use std::collections::HashSet;
use crate::bit_board::BitBoard;
use crate::position_factory::digit_of_spec;

verus! {

broadcast use vstd::std_specs::hash::group_hash_axioms;

/// A move-list string: every character names a column of the board.
pub open spec fn move_list_chars(s: Seq<char>) -> bool {
    forall|i: int|
        0 <= i < s.len() ==> (#[trigger] digit_of_spec(s[i])) is Some && digit_of_spec(s[i])->0 < 7
}

/// Depth-first enumerator of reachable positions, one visit per canonical
/// key, collecting the move-list strings of the positions at the target
/// depth.
pub struct Explorer {
    visited: HashSet<u64>,
    pub output: Vec<String>,
}

impl Explorer {
    /// The canonical keys of the positions seen so far.
    pub closed spec fn visited_set(self) -> Set<u64> {
        self.visited@
    }

    /// The move lists collected so far.
    pub closed spec fn output_seq(self) -> Seq<String> {
        self.output@
    }

    pub fn new() -> (r: Self)
        ensures
            r.visited_set() == Set::<u64>::empty(),
            r.output_seq().len() == 0,
    {
        Self { visited: HashSet::new(), output: vec![] }
    }

    pub fn visited_count(&self) -> (r: usize)
        ensures
            r == self.visited_set().len(),
    {
        self.visited.len()
    }

    /// Walks every position reachable from `position` in at most `depth`
    /// plies, skipping positions whose canonical key was already seen and
    /// not playing winning moves; the positions reached at exactly `depth`
    /// plies append their move lists to the output.
    pub fn explore(&mut self, position: BitBoard, position_string: String, depth: u8)
        requires
            position.wf(),
            position_string@.len() == position.move_count,
            move_list_chars(position_string@),
        ensures
            old(self).visited_set().contains(position.symmetric_key_spec())
                || position.move_count > depth ==> *final(self) == *old(self),
            !old(self).visited_set().contains(position.symmetric_key_spec())
                && position.move_count <= depth ==> final(self).visited_set().contains(
                position.symmetric_key_spec(),
            ),
            !old(self).visited_set().contains(position.symmetric_key_spec())
                && position.move_count == depth ==> final(self).output_seq() == old(
                self,
            ).output_seq().push(position_string),
            final(self).output_seq().len() >= old(self).output_seq().len(),
            forall|i: int|
                0 <= i < old(self).output_seq().len() ==> final(self).output_seq()[i] == old(
                    self).output_seq()[i],
            forall|i: int|
                old(self).output_seq().len() <= i < final(self).output_seq().len() ==> (((
                #[trigger] final(self).output_seq()[i])@.len() == depth) && move_list_chars(
                    final(self).output_seq()[i]@)),
            old(self).visited_set() <= final(self).visited_set(),
            !old(self).visited_set().contains(position.symmetric_key_spec())
                && position.move_count < depth ==> forall|col: u8|
                col < 7 && position.can_play_spec(col) && !position.is_winning_move_spec(col)
                    ==> final(self).visited_set().contains(
                    #[trigger] position.play_result_spec(col).symmetric_key_spec(),
                ),
        decreases depth + 1 - position.move_count,
    {
        let key = position.symmetric_key();
        if self.visited.contains(&key) || position.get_move_count() > depth {
            return ;
        }
        self.visited.insert(key);
        if position.get_move_count() == depth {
            self.output.push(position_string.clone());
        }
        let ghost emitted = self.output@;
        let mut col: u8 = 0;
        while col < 7
            invariant
                col <= 7,
                position.wf(),
                position.move_count <= depth,
                position_string@.len() == position.move_count,
                move_list_chars(position_string@),
                self.visited_set().contains(position.symmetric_key_spec()),
                position.move_count == depth ==> self.output@ == emitted,
                emitted == if position.move_count == depth {
                    old(self).output_seq().push(position_string)
                } else {
                    old(self).output_seq()
                },
                self.output@.len() >= old(self).output_seq().len(),
                forall|i: int|
                    0 <= i < old(self).output_seq().len() ==> self.output@[i] == old(
                        self).output_seq()[i],
                forall|i: int|
                    old(self).output_seq().len() <= i < self.output@.len() ==> (((
                    #[trigger] self.output@[i])@.len() == depth) && move_list_chars(
                        self.output@[i]@)),
                old(self).visited_set() <= self.visited_set(),
                position.move_count < depth ==> forall|c: u8|
                    c < col && position.can_play_spec(c) && !position.is_winning_move_spec(c)
                        ==> self.visited_set().contains(
                        #[trigger] position.play_result_spec(c).symmetric_key_spec(),
                    ),
            decreases 7 - col,
        {
            if position.can_play(col) && !position.is_winning_move(col) {
                let mut position2 = position.clone();
                position2.play(col);
                let mut child_string = position_string.clone();
                proof {
                    reveal_strlit("0");
                    reveal_strlit("1");
                    reveal_strlit("2");
                    reveal_strlit("3");
                    reveal_strlit("4");
                    reveal_strlit("5");
                    reveal_strlit("6");
                }
                match col {
                    0 => child_string.append("0"),
                    1 => child_string.append("1"),
                    2 => child_string.append("2"),
                    3 => child_string.append("3"),
                    4 => child_string.append("4"),
                    5 => child_string.append("5"),
                    _ => child_string.append("6"),
                }
                proof {
                    assert(move_list_chars(child_string@));
                    assert(child_string@.len() == position2.move_count);
                }
                proof {
                    assert(position2 == position.play_result_spec(col));
                }
                self.explore(position2, child_string, depth);
            }
            col = col + 1;
        }
    }
}

} // verus!

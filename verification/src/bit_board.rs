use vstd::prelude::*;

verus! {

broadcast use vstd::string::group_string_axioms;

// position/mask are 49-bit representations of the board.
// position:
//     empty spaces and the opponent's pieces are '0's
//     the side to move's pieces are '1's
// mask:
//     empty spaces are '0's
//     all pieces are '1's
// The bottom left of the board is bit 0 and the top right is bit 48.
// Each column occupies seven consecutive bits: six playable rows and one
// sentinel row on top that stays empty in every legal position.
//                              .  .  .  .  .  .  .
//                              5 12 19 26 33 40 47
//                              4 11 18 25 32 39 46
//                              3 10 17 24 31 38 45
//                              2  9 16 23 30 37 44
//                              1  8 15 22 29 36 43
//                              0  7 14 21 28 35 42

/// One bit set at the bottom cell of each column.
pub const BOTTOM_MASK_ALL: u64 = (1u64 << 0) | (1u64 << 7) | (1u64 << 14) | (1u64 << 21) | (1u64
    << 28) | (1u64 << 35) | (1u64 << 42);

/// All playable cells: six rows in each of the seven columns.
pub const BOARD_MASK: u64 = (0x3Fu64 << 0) | (0x3Fu64 << 7) | (0x3Fu64 << 14) | (0x3Fu64 << 21) | (
    0x3Fu64 << 28) | (0x3Fu64 << 35) | (0x3Fu64 << 42);

/// True iff bit `i` of `x` is set.
pub open spec fn nth_bit(x: u64, i: u64) -> bool
    recommends
        i < 64,
{
    (x >> i) & 1 == 1
}

/// Bit index of the bottom cell of column `col`.
pub open spec fn col_shift(col: u8) -> u64 {
    ((col as u64) * 7) as u64
}

/// Bit index of the top playable cell of column `col`.
pub open spec fn top_bit_index(col: u8) -> u64 {
    ((col as u64) * 7 + 5) as u64
}

/// Number of set bits of `x` among the low `n` bit positions.
pub open spec fn pc_to(x: u64, n: nat) -> nat
    recommends
        n <= 64,
    decreases n,
{
    if n == 0 {
        0
    } else {
        pc_to(x, (n - 1) as nat) + if nth_bit(x, (n - 1) as u64) {
            1nat
        } else {
            0nat
        }
    }
}

/// Number of set bits of `x`.
pub open spec fn popcount(x: u64) -> nat {
    pc_to(x, 64)
}

pub proof fn lemma_pc_to_bound(x: u64, n: nat)
    requires
        n <= 64,
    ensures
        pc_to(x, n) <= n,
    decreases n,
{
    if n > 0 {
        lemma_pc_to_bound(x, (n - 1) as nat);
    }
}

/// Setting one clear bit raises the popcount by one.
pub proof fn lemma_pc_to_or_bit(x: u64, k: u64, n: nat)
    requires
        k < 64,
        n <= 64,
        !nth_bit(x, k),
    ensures
        pc_to(x | (1u64 << k), n) == pc_to(x, n) + if (k as nat) < n {
            1nat
        } else {
            0nat
        },
    decreases n,
{
    if n > 0 {
        lemma_pc_to_or_bit(x, k, (n - 1) as nat);
        let i = (n - 1) as u64;
        if i == k {
            assert(((x | (1u64 << k)) >> k) & 1 == 1) by (bit_vector)
                requires
                    k < 64,
            ;
        } else {
            assert(((x | (1u64 << k)) >> i) & 1 == (x >> i) & 1) by (bit_vector)
                requires
                    i < 64,
                    k < 64,
                    i != k,
            ;
        }
    }
}

/// Removing a subset `y` from `x` lowers the popcount by the popcount of `y`.
pub proof fn lemma_pc_to_xor_subset(x: u64, y: u64, n: nat)
    requires
        n <= 64,
        y & !x == 0,
    ensures
        pc_to(x ^ y, n) + pc_to(y, n) == pc_to(x, n),
    decreases n,
{
    if n > 0 {
        lemma_pc_to_xor_subset(x, y, (n - 1) as nat);
        let i = (n - 1) as u64;
        assert(((y >> i) & 1 == 1 ==> (x >> i) & 1 == 1) && ((((x ^ y) >> i) & 1 == 1) <==> (((x
            >> i) & 1 == 1) != ((y >> i) & 1 == 1)))) by (bit_vector)
            requires
                i < 64,
                y & !x == 0,
        ;
    }
}

/// A value with a set bit has a positive popcount.
pub proof fn lemma_pc_to_nonzero(x: u64, k: u64, n: nat)
    requires
        k < 64,
        (k as nat) < n,
        n <= 64,
        nth_bit(x, k),
    ensures
        pc_to(x, n) >= 1,
    decreases n,
{
    if (k as nat) < n - 1 {
        lemma_pc_to_nonzero(x, k, (n - 1) as nat);
    }
}

/// A nonzero power of two is a single bit.
pub proof fn lemma_pow2_exists(d: u64)
    requires
        d != 0,
        d & ((d - 1) as u64) == 0,
    ensures
        exists|k: u64| k < 64 && d == (1u64 << k),
    decreases d,
{
    if d == 1 {
        assert(1u64 << 0u64 == 1) by (bit_vector);
        assert(0u64 < 64 && d == (1u64 << 0u64));
    } else {
        assert(d % 2 == 0 && (d / 2) != 0 && (d / 2) & (((d / 2) - 1) as u64) == 0) by (bit_vector)
            requires
                d != 0,
                d != 1,
                d & ((d - 1) as u64) == 0,
        ;
        lemma_pow2_exists(d / 2);
        let kp = choose|kp: u64| kp < 64 && (d / 2) == (1u64 << kp);
        assert(kp < 63 && d == (1u64 << ((kp + 1) as u64))) by (bit_vector)
            requires
                kp < 64,
                d / 2 == (1u64 << kp),
                d % 2 == 0,
                d != 0,
        ;
    }
}

/// Counts the set bits of `x`.
pub fn popcount64(x: u64) -> (r: u8)
    ensures
        r == popcount(x),
        r <= 64,
{
    let mut i: u64 = 0;
    let mut n: u8 = 0;
    while i < 64
        invariant
            i <= 64,
            n == pc_to(x, i as nat),
            n <= i,
        decreases 64 - i,
    {
        if (x >> i) & 1 == 1 {
            n = n + 1;
        }
        i = i + 1;
    }
    proof {
        lemma_pc_to_bound(x, 64);
    }
    n
}

#[derive(Clone, Copy, Debug, PartialEq, Eq, Structural)]
pub struct BitBoard {
    pub position: u64,
    pub mask: u64,
    pub move_count: u8,
}

impl BitBoard {
    /// A legal board: the side to move's stones lie within the occupied
    /// cells, every occupied cell is a playable cell, the occupied count is
    /// the move count, and the side to move owns half of the stones,
    /// rounded down.
    pub open spec fn wf(self) -> bool {
        &&& self.position & !self.mask == 0
        &&& self.mask & !BOARD_MASK == 0
        &&& popcount(self.mask) == self.move_count
        &&& popcount(self.position) == self.move_count / 2
        &&& self.move_count <= 42
    }

    pub open spec fn can_play_spec(self, col: u8) -> bool
        recommends
            col < 7,
    {
        !nth_bit(self.mask, top_bit_index(col))
    }

    /// The board after one stone drops in `col`: the perspective flips and
    /// the lowest empty cell of the column joins the mask.
    pub open spec fn play_result_spec(self, col: u8) -> BitBoard
        recommends
            col < 7,
    {
        BitBoard {
            position: self.position ^ self.mask,
            mask: self.mask | ((self.mask + (1u64 << col_shift(col))) as u64),
            move_count: (self.move_count + 1) as u8,
        }
    }

    pub fn new() -> (r: Self)
        ensures
            r == (BitBoard { position: 0u64, mask: 0u64, move_count: 0u8 }),
            r.wf(),
            columns_contiguous(r.mask),
    {
        proof {
            lemma_pc_to_zero(64);
            lemma_zero_contiguous();
            assert(0u64 & !0u64 == 0 && 0u64 & !BOARD_MASK == 0) by (bit_vector);
        }
        BitBoard { position: 0, mask: 0, move_count: 0 }
    }

    fn bottom_mask(col: u8) -> (r: u64)
        requires
            col < 7,
        ensures
            r == (1u64 << col_shift(col)),
    {
        1u64 << ((col as u64) * 7)
    }

    fn top_mask(col: u8) -> (r: u64)
        requires
            col < 7,
        ensures
            r == (1u64 << top_bit_index(col)),
    {
        1u64 << ((col as u64) * 7 + 5)
    }

    pub fn can_play(&self, col: u8) -> (r: bool)
        requires
            col < 7,
        ensures
            r == self.can_play_spec(col),
    {
        let t = Self::top_mask(col);
        let r = self.mask & t == 0;
        proof {
            let s = top_bit_index(col);
            let m = self.mask;
            assert((m & (1u64 << s) == 0) == !((m >> s) & 1 == 1)) by (bit_vector)
                requires
                    s < 64,
            ;
        }
        r
    }

    pub fn play(&mut self, col: u8)
        requires
            old(self).wf(),
            col < 7,
            old(self).can_play_spec(col),
        ensures
            final(self).position == old(self).position ^ old(self).mask,
            final(self).mask == old(self).mask | ((old(self).mask + (1u64 << col_shift(col)))
                as u64),
            final(self).move_count == old(self).move_count + 1,
            final(self).wf(),
            columns_contiguous(old(self).mask) ==> columns_contiguous(final(self).mask),
    {
        proof {
            lemma_play_wf(*old(self), col);
            if columns_contiguous(self.mask) {
                lemma_play_preserves_contiguous(*self, col);
            }
        }
        self.position = self.position ^ self.mask;
        self.mask = self.mask | (self.mask + Self::bottom_mask(col));
        self.move_count = self.move_count + 1;
    }
}

pub proof fn lemma_pc_to_zero(n: nat)
    requires
        n <= 64,
    ensures
        pc_to(0, n) == 0,
    decreases n,
{
    if n > 0 {
        lemma_pc_to_zero((n - 1) as nat);
        let i = (n - 1) as u64;
        assert((0u64 >> i) & 1 == 0) by (bit_vector);
    }
}

/// Dropping a stone in a playable column adds exactly one stone, in that
/// column, and hands the move to the other side.
proof fn lemma_play_wf(b: BitBoard, col: u8)
    requires
        b.wf(),
        col < 7,
        b.can_play_spec(col),
    ensures
        b.mask + (1u64 << col_shift(col)) <= u64::MAX,
        ({
            let m2 = b.mask | ((b.mask + (1u64 << col_shift(col))) as u64);
            let p2 = b.position ^ b.mask;
            &&& popcount(m2) == popcount(b.mask) + 1
            &&& popcount(p2) == b.move_count - b.move_count / 2
            &&& p2 & !m2 == 0
            &&& m2 & !BOARD_MASK == 0
        }),
        b.move_count < 42,
{
    let s: u64 = col_shift(col);
    let m = b.mask;
    let p = b.position;
    // The carry from adding the bottom bit stops below the sentinel row,
    // so exactly one new board bit appears.
    assert(m + (1u64 << s) <= 0xFFFF_FFFF_FFFF_FFFFu64 && ({
        let m2 = m | ((m + (1u64 << s)) as u64);
        let d = m2 & !m;
        &&& d != 0
        &&& d & ((d - 1) as u64) == 0
        &&& d & m == 0
        &&& m2 == m | d
        &&& m2 & !BOARD_MASK == 0
        &&& (p ^ m) & !m2 == 0
        &&& (p ^ m) == (m ^ p)
    })) by (bit_vector)
        requires
            s == (col as u64) * 7,
            col < 7,
            m & !BOARD_MASK == 0,
            (m >> ((col as u64) * 7 + 5)) & 1 != 1,
            p & !m == 0,
    ;
    let m2 = m | ((m + (1u64 << s)) as u64);
    let d = m2 & !m;
    lemma_pow2_exists(d);
    let k = choose|k: u64| k < 64 && d == (1u64 << k);
    assert(!((m >> k) & 1 == 1)) by (bit_vector)
        requires
            k < 64,
            d == (1u64 << k),
            d & m == 0,
    ;
    lemma_pc_to_or_bit(m, k, 64);
    lemma_pc_to_xor_subset(m, p, 64);
    // A playable column leaves at least one board cell empty, so the board
    // was not full.
    let t: u64 = top_bit_index(col);
    assert(nth_bit(BOARD_MASK ^ m, t) && (BOARD_MASK ^ m) & !BOARD_MASK == 0 && m & !(BOARD_MASK
        ^ (BOARD_MASK ^ m)) == 0 && BOARD_MASK ^ (BOARD_MASK ^ m) == m) by (bit_vector)
        requires
            t == (col as u64) * 7 + 5,
            col < 7,
            m & !BOARD_MASK == 0,
            (m >> ((col as u64) * 7 + 5)) & 1 != 1,
    ;
    lemma_pc_to_nonzero(BOARD_MASK ^ m, t, 64);
    lemma_pc_to_xor_subset(BOARD_MASK, BOARD_MASK ^ m, 64);
    lemma_board_mask_popcount();
}

/// The board has forty-two playable cells.
pub proof fn lemma_board_mask_popcount()
    ensures
        popcount(BOARD_MASK) == 42,
{
    assert(pc_to(BOARD_MASK, 64) == 42) by (bit_vector);
}

impl BitBoard {
    /// The board `position` would hold for the mover after dropping a stone
    /// in `col`: the mover's stones including the new one.
    pub open spec fn position_from_col_spec(self, col: u8) -> u64
        recommends
            col < 7,
    {
        (self.position ^ self.mask) ^ (self.mask | ((self.mask + (1u64 << col_shift(col)))
            as u64))
    }

    pub open spec fn is_winning_move_spec(self, col: u8) -> bool
        recommends
            col < 7,
    {
        let new_position = self.position_from_col_spec(col);
        ||| alignment_horizontal_spec(new_position)
        ||| alignment_positive_diagonal_spec(new_position)
        ||| alignment_negative_diagonal_spec(new_position)
        ||| alignment_vertical_spec(new_position)
    }

    /// The lowest empty cell of each non-full column.
    pub open spec fn possible_spec(self) -> u64 {
        ((self.mask + BOTTOM_MASK_ALL) as u64) & BOARD_MASK
    }

    pub open spec fn key_spec(self) -> u64 {
        (self.position + self.mask) as u64
    }

    pub open spec fn reverse_key_spec(self) -> u64 {
        (mirror_bits(self.position) + mirror_bits(self.mask)) as u64
    }

    pub open spec fn symmetric_key_spec(self) -> u64 {
        if self.key_spec() < self.reverse_key_spec() {
            self.key_spec()
        } else {
            self.reverse_key_spec()
        }
    }

    pub open spec fn can_win_next_move_spec(self) -> bool {
        exists|col: u8| col < 7 && self.is_winning_move_spec(col) && self.can_play_spec(col)
    }

    /// Cells where the opponent of the side to move would complete four.
    pub open spec fn opponent_winning_spec(self) -> u64 {
        winning_positions_spec(self.position ^ self.mask, self.mask)
    }

    /// Opponent threats that are playable right now.
    pub open spec fn forced_moves_spec(self) -> u64 {
        self.possible_spec() & self.opponent_winning_spec()
    }

    /// Two or more playable opponent threats: the side to move cannot block
    /// them all.
    pub open spec fn double_forced_spec(self) -> bool {
        &&& self.forced_moves_spec() != 0
        &&& self.forced_moves_spec() & ((self.forced_moves_spec() - 1) as u64) != 0
    }

    /// Playable cells that neither ignore a single forced block nor hand the
    /// opponent a winning reply directly above.
    pub open spec fn non_losing_moves_spec(self) -> u64 {
        (if self.forced_moves_spec() != 0 {
            self.forced_moves_spec()
        } else {
            self.possible_spec()
        }) & !(self.opponent_winning_spec() >> 1)
    }

    pub open spec fn column_qualifies_spec(self, col: u8) -> bool
        recommends
            col < 7,
    {
        &&& column_mask_spec(col) & self.non_losing_moves_spec() != 0
        &&& self.can_play_spec(col)
    }

    /// Number of threats the mover would own after playing `col`.
    pub open spec fn move_weight_spec(self, col: u8) -> u8
        recommends
            col < 7,
    {
        popcount(winning_positions_spec(self.position_from_col_spec(col), self.mask)) as u8
    }

    /// The move list built column by column, low columns first.
    pub open spec fn moves_prefix_spec(self, c: int) -> Seq<(u8, u8)>
        recommends
            0 <= c <= 7,
        decreases c,
    {
        if c <= 0 {
            Seq::empty()
        } else {
            self.moves_prefix_spec(c - 1) + if self.column_qualifies_spec((c - 1) as u8) {
                seq![(((c - 1) as u8), self.move_weight_spec((c - 1) as u8))]
            } else {
                Seq::empty()
            }
        }
    }

    pub open spec fn moves_with_weight_spec(self) -> Seq<(u8, u8)> {
        if self.double_forced_spec() {
            Seq::empty()
        } else {
            self.moves_prefix_spec(7)
        }
    }

    /// Worst score still possible for the side to move: losing with the last
    /// stone of the game.
    pub open spec fn min_possible_score_spec(self) -> int
        recommends
            self.move_count <= 42,
    {
        -((42 - self.move_count) / 2)
    }

    /// Worst score once an immediate win is ruled out.
    pub open spec fn next_min_possible_score_spec(self) -> int
        recommends
            self.move_count <= 40,
    {
        -((40 - self.move_count) / 2)
    }

    /// Best score still possible for the side to move: winning with the next
    /// stone.
    pub open spec fn max_possible_score_spec(self) -> int
        recommends
            self.move_count <= 42,
    {
        (43 - self.move_count) / 2
    }

    /// Best score once an immediate win is ruled out.
    pub open spec fn next_max_possible_score_spec(self) -> int
        recommends
            self.move_count <= 41,
    {
        (41 - self.move_count) / 2
    }

    pub fn min_possible_score(&self) -> (r: i8)
        requires
            self.move_count <= 42,
        ensures
            r == self.min_possible_score_spec(),
    {
        let h = ((42 - self.move_count) / 2) as i8;
        -h
    }

    pub fn next_min_possible_score(&self) -> (r: i8)
        requires
            self.move_count <= 40,
        ensures
            r == self.next_min_possible_score_spec(),
    {
        let h = ((40 - self.move_count) / 2) as i8;
        -h
    }

    pub fn max_possible_score(&self) -> (r: i8)
        requires
            self.move_count <= 42,
        ensures
            r == self.max_possible_score_spec(),
    {
        ((43 - self.move_count) / 2) as i8
    }

    pub fn next_max_possible_score(&self) -> (r: i8)
        requires
            self.move_count <= 41,
        ensures
            r == self.next_max_possible_score_spec(),
    {
        ((41 - self.move_count) / 2) as i8
    }

    pub fn get_move_count(&self) -> (r: u8)
        ensures
            r == self.move_count,
    {
        self.move_count
    }

    fn column_mask(&self, col: u8) -> (r: u64)
        requires
            col < 7,
        ensures
            r == column_mask_spec(col),
    {
        0x3Fu64 << ((col as u64) * 7)
    }

    fn possible(&self) -> (r: u64)
        requires
            self.mask & !BOARD_MASK == 0,
        ensures
            r == self.possible_spec(),
    {
        proof {
            assert(BOTTOM_MASK_ALL & !BOARD_MASK == 0) by (bit_vector);
            lemma_add_in_board_bounds(self.mask, BOTTOM_MASK_ALL);
        }
        (self.mask + BOTTOM_MASK_ALL) & BOARD_MASK
    }

    fn position_from_col(&self, col: u8) -> (r: u64)
        requires
            col < 7,
            self.mask & !BOARD_MASK == 0,
        ensures
            r == self.position_from_col_spec(col),
    {
        proof {
            lemma_shift_small(col);
            lemma_add_in_board_bounds(self.mask, 1u64 << col_shift(col));
        }
        let flipped_position = self.position ^ self.mask;
        let new_mask = self.mask | (self.mask + Self::bottom_mask(col));
        flipped_position ^ new_mask
    }

    pub fn is_winning_move(&self, col: u8) -> (r: bool)
        requires
            col < 7,
            self.mask & !BOARD_MASK == 0,
        ensures
            r == self.is_winning_move_spec(col),
    {
        let new_position = self.position_from_col(col);
        return Self::alignment_horizontal(new_position) || Self::alignment_positive_diagonal(
            new_position,
        ) || Self::alignment_negative_diagonal(new_position) || Self::alignment_vertical(
            new_position,
        );
    }

    pub fn can_win_next_move(&self) -> (r: bool)
        requires
            self.mask & !BOARD_MASK == 0,
        ensures
            r == self.can_win_next_move_spec(),
    {
        let mut col: u8 = 0;
        while col < 7
            invariant
                col <= 7,
                self.mask & !BOARD_MASK == 0,
                forall|c: u8|
                    c < col ==> !(self.is_winning_move_spec(c) && self.can_play_spec(c)),
            decreases 7 - col,
        {
            if self.is_winning_move(col) && self.can_play(col) {
                return true;
            }
            col = col + 1;
        }
        return false;
    }

    pub fn key(&self) -> (r: u64)
        requires
            self.position & !self.mask == 0,
            self.mask & !BOARD_MASK == 0,
        ensures
            r == self.key_spec(),
    {
        proof {
            lemma_position_in_board(self.position, self.mask);
            lemma_add_in_board_bounds(self.position, self.mask);
        }
        self.position + self.mask
    }

    fn reverse_key(&self) -> (r: u64)
        requires
            self.position & !self.mask == 0,
            self.mask & !BOARD_MASK == 0,
        ensures
            r == self.reverse_key_spec(),
    {
        proof {
            lemma_position_in_board(self.position, self.mask);
            lemma_mirror_in_board(self.position);
            lemma_mirror_in_board(self.mask);
            lemma_add_in_board_bounds(mirror_bits(self.position), mirror_bits(self.mask));
        }
        let position = Self::mirror(self.position);
        let mask = Self::mirror(self.mask);
        position + mask
    }

    /// Each column's bits moved to the column mirrored across the board's
    /// vertical midline.
    fn mirror(x: u64) -> (r: u64)
        ensures
            r == mirror_bits(x),
    {
        ((x & (0x3Fu64 << 0)) << 42) | ((x & (0x3Fu64 << 7)) << 28) | ((x & (0x3Fu64 << 14)) << 14)
            | (x & (0x3Fu64 << 21)) | ((x & (0x3Fu64 << 28)) >> 14) | ((x & (0x3Fu64 << 35)) >> 28)
            | ((x & (0x3Fu64 << 42)) >> 42)
    }

    pub fn symmetric_key(&self) -> (r: u64)
        requires
            self.position & !self.mask == 0,
            self.mask & !BOARD_MASK == 0,
        ensures
            r == self.symmetric_key_spec(),
    {
        let k = self.key();
        let rk = self.reverse_key();
        if k < rk {
            k
        } else {
            rk
        }
    }

    fn winning_positions(position: u64, mask: u64) -> (r: u64)
        ensures
            r == winning_positions_spec(position, mask),
    {
        let all_winning_positions = Self::vertical_winning_positions(position)
            | Self::horizontal_winning_positions(position)
            | Self::positive_diagonal_winning_positions(position)
            | Self::negative_diagonal_winning_positions(position);
        all_winning_positions & (BOARD_MASK ^ mask)
    }

    fn vertical_winning_positions(position: u64) -> (r: u64)
        ensures
            r == vertical_winning_positions_spec(position),
    {
        (position << 1) & (position << 2) & (position << 3)
    }

    fn horizontal_winning_positions(position: u64) -> (r: u64)
        ensures
            r == horizontal_winning_positions_spec(position),
    {
        let m = (position << 7) & (position << 14);
        let n = m >> 21;
        return m & (position << 21) | m & (position >> 7) | n & (position << 7) | n & (position
            >> 21);
    }

    fn positive_diagonal_winning_positions(position: u64) -> (r: u64)
        ensures
            r == positive_diagonal_winning_positions_spec(position),
    {
        let m = (position << 8) & (position << 16);
        let n = m >> 24;
        return m & (position << 24) | m & (position >> 8) | n & (position << 8) | n & (position
            >> 24);
    }

    fn negative_diagonal_winning_positions(position: u64) -> (r: u64)
        ensures
            r == negative_diagonal_winning_positions_spec(position),
    {
        let m = (position << 6) & (position << 12);
        let n = m >> 18;
        return m & (position << 18) | m & (position >> 6) | n & (position << 6) | n & (position
            >> 18);
    }

    fn alignment_horizontal(position: u64) -> (r: bool)
        ensures
            r == alignment_horizontal_spec(position),
    {
        let m = position & (position >> 7);
        m & (m >> 14) > 0
    }

    fn alignment_positive_diagonal(position: u64) -> (r: bool)
        ensures
            r == alignment_positive_diagonal_spec(position),
    {
        let m = position & (position >> 8);
        m & (m >> 16) > 0
    }

    fn alignment_negative_diagonal(position: u64) -> (r: bool)
        ensures
            r == alignment_negative_diagonal_spec(position),
    {
        let m = position & (position >> 6);
        m & (m >> 12) > 0
    }

    fn alignment_vertical(position: u64) -> (r: bool)
        ensures
            r == alignment_vertical_spec(position),
    {
        let m = position & (position >> 1);
        m & (m >> 2) > 0
    }

    pub fn get_moves_with_weight(&self) -> (r: Vec<(u8, u8)>)
        requires
            self.position & !self.mask == 0,
            self.mask & !BOARD_MASK == 0,
        ensures
            r@ == self.moves_with_weight_spec(),
            forall|i: int|
                0 <= i < r@.len() ==> r@[i].0 < 7 && self.can_play_spec(r@[i].0),
    {
        let mut possible_mask = self.possible();
        let opponent_wins = Self::winning_positions(self.position ^ self.mask, self.mask);
        let forced_moves = possible_mask & opponent_wins;
        if forced_moves > 0 {
            if (forced_moves & (forced_moves - 1)) > 0 {
                return Vec::new();
            } else {
                possible_mask = forced_moves;
            }
        }
        let non_losing_moves = possible_mask & !(opponent_wins >> 1);
        let mut r: Vec<(u8, u8)> = Vec::new();
        let mut col: u8 = 0;
        while col < 7
            invariant
                col <= 7,
                self.position & !self.mask == 0,
                self.mask & !BOARD_MASK == 0,
                !self.double_forced_spec(),
                non_losing_moves == self.non_losing_moves_spec(),
                r@ == self.moves_prefix_spec(col as int),
            decreases 7 - col,
        {
            if (self.column_mask(col) & non_losing_moves) > 0 && self.can_play(col) {
                let weight = popcount64(Self::winning_positions(
                    self.position_from_col(col),
                    self.mask,
                ));
                proof {
                    lemma_pc_to_bound(
                        winning_positions_spec(self.position_from_col_spec(col), self.mask),
                        64,
                    );
                }
                r.push((col, weight));
                proof {
                    assert(r@ =~= self.moves_prefix_spec(col + 1));
                }
            } else {
                proof {
                    assert(r@ =~= self.moves_prefix_spec(col + 1));
                }
            }
            col = col + 1;
        }
        proof {
            lemma_moves_prefix_columns(*self, 7);
        }
        r
    }
}

pub open spec fn column_mask_spec(col: u8) -> u64
    recommends
        col < 7,
{
    0x3Fu64 << col_shift(col)
}

pub open spec fn vertical_winning_positions_spec(p: u64) -> u64 {
    (p << 1) & (p << 2) & (p << 3)
}

pub open spec fn horizontal_winning_positions_spec(p: u64) -> u64 {
    let m = (p << 7) & (p << 14);
    let n = m >> 21;
    m & (p << 21) | m & (p >> 7) | n & (p << 7) | n & (p >> 21)
}

pub open spec fn positive_diagonal_winning_positions_spec(p: u64) -> u64 {
    let m = (p << 8) & (p << 16);
    let n = m >> 24;
    m & (p << 24) | m & (p >> 8) | n & (p << 8) | n & (p >> 24)
}

pub open spec fn negative_diagonal_winning_positions_spec(p: u64) -> u64 {
    let m = (p << 6) & (p << 12);
    let n = m >> 18;
    m & (p << 18) | m & (p >> 6) | n & (p << 6) | n & (p >> 18)
}

/// Empty playable cells that would complete four in a row for the side whose
/// stones are `position`.
pub open spec fn winning_positions_spec(position: u64, mask: u64) -> u64 {
    (vertical_winning_positions_spec(position) | horizontal_winning_positions_spec(position)
        | positive_diagonal_winning_positions_spec(position)
        | negative_diagonal_winning_positions_spec(position)) & (BOARD_MASK ^ mask)
}

pub open spec fn alignment_horizontal_spec(p: u64) -> bool {
    (p & (p >> 7)) & ((p & (p >> 7)) >> 14) > 0
}

pub open spec fn alignment_positive_diagonal_spec(p: u64) -> bool {
    (p & (p >> 8)) & ((p & (p >> 8)) >> 16) > 0
}

pub open spec fn alignment_negative_diagonal_spec(p: u64) -> bool {
    (p & (p >> 6)) & ((p & (p >> 6)) >> 12) > 0
}

pub open spec fn alignment_vertical_spec(p: u64) -> bool {
    (p & (p >> 1)) & ((p & (p >> 1)) >> 2) > 0
}

/// The board reflected across its vertical midline.
pub open spec fn mirror_bits(x: u64) -> u64 {
    ((x & (0x3Fu64 << 0)) << 42) | ((x & (0x3Fu64 << 7)) << 28) | ((x & (0x3Fu64 << 14)) << 14) | (
    x & (0x3Fu64 << 21)) | ((x & (0x3Fu64 << 28)) >> 14) | ((x & (0x3Fu64 << 35)) >> 28) | ((x & (
    0x3Fu64 << 42)) >> 42)
}

/// The same position with the columns mirrored; the key facts below make
/// `symmetric_key` a canonical form under reflection.
pub open spec fn mirror_position(b: BitBoard) -> BitBoard {
    BitBoard { position: mirror_bits(b.position), mask: mirror_bits(b.mask), move_count: b.move_count }
}

proof fn lemma_shift_small(col: u8)
    requires
        col < 7,
    ensures
        (1u64 << col_shift(col)) & !BOARD_MASK == 0,
{
    let s: u64 = col_shift(col);
    assert((1u64 << s) & !BOARD_MASK == 0) by (bit_vector)
        requires
            s == (col as u64) * 7,
            col < 7,
    ;
}

/// Stones of the side to move stay on the board.
proof fn lemma_position_in_board(p: u64, m: u64)
    requires
        p & !m == 0,
        m & !BOARD_MASK == 0,
    ensures
        p & !BOARD_MASK == 0,
        p <= BOARD_MASK,
        m <= BOARD_MASK,
{
    assert(p & !BOARD_MASK == 0 && p <= BOARD_MASK && m <= BOARD_MASK) by (bit_vector)
        requires
            p & !m == 0,
            m & !BOARD_MASK == 0,
    ;
}

/// Adding two board-bounded values stays within `u64`.
proof fn lemma_add_in_board_bounds(a: u64, b: u64)
    requires
        a & !BOARD_MASK == 0,
        b & !BOARD_MASK == 0,
    ensures
        a + b <= u64::MAX,
{
    assert(a + b <= 0xFFFF_FFFF_FFFF_FFFFu64) by (bit_vector)
        requires
            a & !BOARD_MASK == 0,
            b & !BOARD_MASK == 0,
    ;
}

/// The mirror image of board bits lies on the board.
proof fn lemma_mirror_in_board(x: u64)
    requires
        x & !BOARD_MASK == 0,
    ensures
        mirror_bits(x) & !BOARD_MASK == 0,
        mirror_bits(x) <= BOARD_MASK,
{
    assert(mirror_bits(x) & !BOARD_MASK == 0 && mirror_bits(x) <= BOARD_MASK) by (bit_vector)
        requires
            x & !BOARD_MASK == 0,
    ;
}

/// Mirroring twice gives the original board back.
pub proof fn lemma_mirror_involution(x: u64)
    requires
        x & !BOARD_MASK == 0,
    ensures
        mirror_bits(mirror_bits(x)) == x,
{
    assert(mirror_bits(mirror_bits(x)) == x) by (bit_vector)
        requires
            x & !BOARD_MASK == 0,
    ;
}


/// Gravity holds: in every column the stones fill a contiguous run from
/// the bottom, so each column slice is one less than a power of two. Boards
/// built by playing moves satisfy this; the grid parser, like the move
/// semantics themselves, does not require it.
pub open spec fn columns_contiguous(mask: u64) -> bool {
    forall|c: u64|
        c < 7 ==> (#[trigger] (mask >> ((c * 7) as u64)) & 0x7F) & ((((mask >> ((c * 7) as u64))
            & 0x7F) + 1) as u64) == 0
}

/// The empty board is gravity-consistent.
pub proof fn lemma_zero_contiguous()
    ensures
        columns_contiguous(0u64),
{
    assert forall|c: u64|
        c < 7 implies (#[trigger] (0u64 >> ((c * 7) as u64)) & 0x7F) & ((((0u64 >> ((c * 7) as u64))
        & 0x7F) + 1) as u64) == 0 by {
        let sh = (c * 7) as u64;
        assert(((0u64 >> sh) & 0x7F) & ((((0u64 >> sh) & 0x7F) + 1) as u64) == 0) by (bit_vector);
    }
}

/// Dropping a stone keeps every column a contiguous stack.
pub proof fn lemma_play_preserves_contiguous(b: BitBoard, col: u8)
    requires
        b.wf(),
        col < 7,
        b.can_play_spec(col),
        columns_contiguous(b.mask),
    ensures
        columns_contiguous(b.play_result_spec(col).mask),
{
    let m = b.mask;
    let m2 = b.play_result_spec(col).mask;
    assert forall|c: u64|
        c < 7 implies (#[trigger] (m2 >> ((c * 7) as u64)) & 0x7F) & ((((m2 >> ((c * 7) as u64))
        & 0x7F) + 1) as u64) == 0 by {
        let sh = (c * 7) as u64;
        let c0 = col as u64;
        let sh0 = col_shift(col);
        assert(((m >> ((c * 7) as u64)) & 0x7F) & ((((m >> ((c * 7) as u64)) & 0x7F) + 1) as u64)
            == 0);
        assert(((m >> ((c0 * 7) as u64)) & 0x7F) & ((((m >> ((c0 * 7) as u64)) & 0x7F) + 1) as u64)
            == 0);
        assert((((m | ((m + (1u64 << sh0)) as u64)) >> sh) & 0x7F) & ((((((m | ((m + (1u64 << sh0))
            as u64)) >> sh) & 0x7F) + 1) as u64)) == 0) by (bit_vector)
            requires
                sh == (c * 7) as u64,
                c < 7,
                sh0 == ((c0 * 7) as u64),
                c0 < 7,
                m & !BOARD_MASK == 0,
                (m >> ((c0 * 7 + 5) as u64)) & 1 != 1,
                ((m >> sh) & 0x7F) & ((((m >> sh) & 0x7F) + 1) as u64) == 0,
                ((m >> sh0) & 0x7F) & ((((m >> sh0) & 0x7F) + 1) as u64) == 0,
        ;
    }
}


/// On a gravity-consistent board, `possible` holds exactly the lowest
/// empty cell of each non-full column: it avoids every occupied cell, each
/// column contributes at most one bit, that bit sits directly above the
/// column's stack, and a column contributes iff it is playable.
pub proof fn lemma_possible_lowest_empty(b: BitBoard)
    requires
        b.wf(),
        columns_contiguous(b.mask),
    ensures
        b.possible_spec() & b.mask == 0,
        forall|c: u64|
            c < 7 ==> {
                let pslice = (#[trigger] (b.possible_spec() >> ((c * 7) as u64))) & 0x7F;
                let mslice = (b.mask >> ((c * 7) as u64)) & 0x7F;
                &&& pslice == ((mslice + 1) as u64) & 0x3F
                &&& pslice & ((pslice - 1) as u64) == 0
                &&& (pslice != 0 <==> b.can_play_spec(c as u8))
            },
{
    let m = b.mask;
    let p = b.possible_spec();
    assert((((m + BOTTOM_MASK_ALL) as u64) & BOARD_MASK) & m == 0) by (bit_vector)
        requires
            m & !BOARD_MASK == 0,
            ((m >> ((0u64 * 7) as u64)) & 0x7F) & ((((m >> ((0u64 * 7) as u64)) & 0x7F) + 1)
                as u64) == 0,
            ((m >> ((1u64 * 7) as u64)) & 0x7F) & ((((m >> ((1u64 * 7) as u64)) & 0x7F) + 1)
                as u64) == 0,
            ((m >> ((2u64 * 7) as u64)) & 0x7F) & ((((m >> ((2u64 * 7) as u64)) & 0x7F) + 1)
                as u64) == 0,
            ((m >> ((3u64 * 7) as u64)) & 0x7F) & ((((m >> ((3u64 * 7) as u64)) & 0x7F) + 1)
                as u64) == 0,
            ((m >> ((4u64 * 7) as u64)) & 0x7F) & ((((m >> ((4u64 * 7) as u64)) & 0x7F) + 1)
                as u64) == 0,
            ((m >> ((5u64 * 7) as u64)) & 0x7F) & ((((m >> ((5u64 * 7) as u64)) & 0x7F) + 1)
                as u64) == 0,
            ((m >> ((6u64 * 7) as u64)) & 0x7F) & ((((m >> ((6u64 * 7) as u64)) & 0x7F) + 1)
                as u64) == 0,
    ;
    assert forall|c: u64| c < 7 implies {
        let pslice = (#[trigger] (b.possible_spec() >> ((c * 7) as u64))) & 0x7F;
        let mslice = (b.mask >> ((c * 7) as u64)) & 0x7F;
        &&& pslice == ((mslice + 1) as u64) & 0x3F
        &&& pslice & ((pslice - 1) as u64) == 0
        &&& (pslice != 0 <==> b.can_play_spec(c as u8))
    } by {
        assert(((m >> ((c * 7) as u64)) & 0x7F) & ((((m >> ((c * 7) as u64)) & 0x7F) + 1) as u64)
            == 0);
        let sh = (c * 7) as u64;
        assert(((((((m + BOTTOM_MASK_ALL) as u64) & BOARD_MASK) >> sh) & 0x7F) == ((((m >> sh)
            & 0x7F) + 1) as u64) & 0x3F) && (((((((m + BOTTOM_MASK_ALL) as u64) & BOARD_MASK) >> sh)
            & 0x7F) & ((((((((m + BOTTOM_MASK_ALL) as u64) & BOARD_MASK) >> sh) & 0x7F) - 1)
            as u64))) == 0) && ((((((m + BOTTOM_MASK_ALL) as u64) & BOARD_MASK) >> sh) & 0x7F != 0)
            <==> ((m >> ((sh + 5) as u64)) & 1 != 1))) by (bit_vector)
            requires
                sh == (c * 7) as u64,
                c < 7,
                m & !BOARD_MASK == 0,
                ((m >> sh) & 0x7F) & ((((m >> sh) & 0x7F) + 1) as u64) == 0,
        ;
        assert(top_bit_index(c as u8) == (sh + 5) as u64);
    }
}

/// On gravity-consistent boards the key determines the position: the mask
/// marks the top of each column's stack and the sum reconstructs both
/// fields.
pub proof fn lemma_key_injective(a: BitBoard, b: BitBoard)
    requires
        a.wf(),
        b.wf(),
        columns_contiguous(a.mask),
        columns_contiguous(b.mask),
        a.key_spec() == b.key_spec(),
    ensures
        a.position == b.position,
        a.mask == b.mask,
{
    let pa = a.position;
    let ma = a.mask;
    let pb = b.position;
    let mb = b.mask;
    assert(pa == pb && ma == mb) by (bit_vector)
        requires
            pa & !ma == 0,
            pb & !mb == 0,
            ma & !BOARD_MASK == 0,
            mb & !BOARD_MASK == 0,
            ((pa + ma) as u64) == ((pb + mb) as u64),
            ((ma >> ((0u64 * 7) as u64)) & 0x7F) & (((((ma >> ((0u64 * 7) as u64)) & 0x7F) + 1) as u64)) == 0,
            ((ma >> ((1u64 * 7) as u64)) & 0x7F) & (((((ma >> ((1u64 * 7) as u64)) & 0x7F) + 1) as u64)) == 0,
            ((ma >> ((2u64 * 7) as u64)) & 0x7F) & (((((ma >> ((2u64 * 7) as u64)) & 0x7F) + 1) as u64)) == 0,
            ((ma >> ((3u64 * 7) as u64)) & 0x7F) & (((((ma >> ((3u64 * 7) as u64)) & 0x7F) + 1) as u64)) == 0,
            ((ma >> ((4u64 * 7) as u64)) & 0x7F) & (((((ma >> ((4u64 * 7) as u64)) & 0x7F) + 1) as u64)) == 0,
            ((ma >> ((5u64 * 7) as u64)) & 0x7F) & (((((ma >> ((5u64 * 7) as u64)) & 0x7F) + 1) as u64)) == 0,
            ((ma >> ((6u64 * 7) as u64)) & 0x7F) & (((((ma >> ((6u64 * 7) as u64)) & 0x7F) + 1) as u64)) == 0,
            ((mb >> ((0u64 * 7) as u64)) & 0x7F) & (((((mb >> ((0u64 * 7) as u64)) & 0x7F) + 1) as u64)) == 0,
            ((mb >> ((1u64 * 7) as u64)) & 0x7F) & (((((mb >> ((1u64 * 7) as u64)) & 0x7F) + 1) as u64)) == 0,
            ((mb >> ((2u64 * 7) as u64)) & 0x7F) & (((((mb >> ((2u64 * 7) as u64)) & 0x7F) + 1) as u64)) == 0,
            ((mb >> ((3u64 * 7) as u64)) & 0x7F) & (((((mb >> ((3u64 * 7) as u64)) & 0x7F) + 1) as u64)) == 0,
            ((mb >> ((4u64 * 7) as u64)) & 0x7F) & (((((mb >> ((4u64 * 7) as u64)) & 0x7F) + 1) as u64)) == 0,
            ((mb >> ((5u64 * 7) as u64)) & 0x7F) & (((((mb >> ((5u64 * 7) as u64)) & 0x7F) + 1) as u64)) == 0,
            ((mb >> ((6u64 * 7) as u64)) & 0x7F) & (((((mb >> ((6u64 * 7) as u64)) & 0x7F) + 1) as u64)) == 0,
    ;
}


/// A nonzero value has a set bit.
proof fn lemma_nonzero_has_bit(x: u64)
    requires
        x != 0,
    ensures
        exists|k: u64| k < 64 && #[trigger] nth_bit(x, k),
    decreases x,
{
    if x & 1 == 1 {
        assert((x >> 0u64) & 1 == 1) by (bit_vector)
            requires
                x & 1 == 1,
        ;
        assert(0u64 < 64 && nth_bit(x, 0u64));
    } else {
        assert(x % 2 == 0 && x / 2 != 0) by (bit_vector)
            requires
                x != 0,
                x & 1 != 1,
        ;
        lemma_nonzero_has_bit(x / 2);
        let kp = choose|kp: u64| kp < 64 && #[trigger] nth_bit(x / 2, kp);
        assert(kp < 63 && (x >> ((kp + 1) as u64)) & 1 == 1) by (bit_vector)
            requires
                kp < 64,
                ((x / 2) >> kp) & 1 == 1,
        ;
        assert(nth_bit(x, (kp + 1) as u64));
    }
}

/// Four evenly spaced set bits put the popcount at four or more.
proof fn lemma_four_spaced_bits_popcount(v: u64, k: u64, s: u64)
    requires
        1 <= s,
        k + 3 * s < 64,
        nth_bit(v, k),
        nth_bit(v, (k + s) as u64),
        nth_bit(v, (k + 2 * s) as u64),
        nth_bit(v, (k + 3 * s) as u64),
    ensures
        popcount(v) >= 4,
{
    let k2 = (k + s) as u64;
    let k3 = (k + 2 * s) as u64;
    let k4 = (k + 3 * s) as u64;
    let y1 = 1u64 << k;
    let y2 = y1 | (1u64 << k2);
    let y3 = y2 | (1u64 << k3);
    let y4 = y3 | (1u64 << k4);
    assert(((0u64 >> k) & 1 != 1) && (((1u64 << k) >> k2) & 1 != 1) && ((((1u64 << k) | (1u64
        << k2)) >> k3) & 1 != 1) && (((((1u64 << k) | (1u64 << k2)) | (1u64 << k3)) >> k4) & 1 != 1)
        && ((((((1u64 << k) | (1u64 << k2)) | (1u64 << k3)) | (1u64 << k4)) & !v) == 0) && (1u64
        << k) == (0u64 | (1u64 << k))) by (bit_vector)
        requires
            1 <= s,
            k2 == (k + s) as u64,
            k3 == (k + 2 * s) as u64,
            k4 == (k + 3 * s) as u64,
            k + 3 * s < 64,
            (v >> k) & 1 == 1,
            (v >> k2) & 1 == 1,
            (v >> k3) & 1 == 1,
            (v >> k4) & 1 == 1,
    ;
    lemma_pc_to_zero(64);
    lemma_pc_to_or_bit(0u64, k, 64);
    lemma_pc_to_or_bit(y1, k2, 64);
    lemma_pc_to_or_bit(y2, k3, 64);
    lemma_pc_to_or_bit(y3, k4, 64);
    lemma_pc_to_xor_subset(v, y4, 64);
}

/// An alignment along step `s` rests on four stones of the aligned side.
proof fn lemma_alignment_popcount(v: u64, s: u64)
    requires
        1 <= s <= 8,
        ((v & (v >> s)) & ((v & (v >> s)) >> ((2 * s) as u64))) != 0,
    ensures
        popcount(v) >= 4,
{
    let w = (v & (v >> s)) & ((v & (v >> s)) >> ((2 * s) as u64));
    lemma_nonzero_has_bit(w);
    let k = choose|k: u64| k < 64 && nth_bit(w, k);
    assert((k + 3 * s < 64) && ((v >> k) & 1 == 1) && ((v >> ((k + s) as u64)) & 1 == 1) && ((v
        >> ((k + 2 * s) as u64)) & 1 == 1) && ((v >> ((k + 3 * s) as u64)) & 1 == 1)) by (bit_vector)
        requires
            1 <= s <= 8,
            k < 64,
            ((((v & (v >> s)) & ((v & (v >> s)) >> ((2 * s) as u64))) >> k) & 1) == 1,
    ;
    lemma_four_spaced_bits_popcount(v, k, s);
}

/// Dropping a stone gives the mover one stone more than before.
proof fn lemma_position_from_col_popcount(b: BitBoard, col: u8)
    requires
        b.wf(),
        col < 7,
        b.can_play_spec(col),
    ensures
        popcount(b.position_from_col_spec(col)) == popcount(b.position) + 1,
{
    let s: u64 = col_shift(col);
    let m = b.mask;
    let p = b.position;
    let v = b.position_from_col_spec(col);
    assert(({
        let m2 = m | ((m + (1u64 << s)) as u64);
        let d = m2 & !m;
        &&& d != 0
        &&& d & ((d - 1) as u64) == 0
        &&& d & p == 0
        &&& ((p ^ m) ^ m2) == p | d
    })) by (bit_vector)
        requires
            s == (col as u64) * 7,
            col < 7,
            m & !BOARD_MASK == 0,
            (m >> ((col as u64) * 7 + 5)) & 1 != 1,
            p & !m == 0,
    ;
    let m2 = m | ((m + (1u64 << s)) as u64);
    let d = m2 & !m;
    lemma_pow2_exists(d);
    let k = choose|k: u64| k < 64 && d == (1u64 << k);
    assert(!((p >> k) & 1 == 1)) by (bit_vector)
        requires
            k < 64,
            d == (1u64 << k),
            d & p == 0,
    ;
    lemma_pc_to_or_bit(p, k, 64);
}

/// A winning move exists only from the sixth ply on: the mover must
/// already hold three of the four aligned stones.
pub proof fn lemma_winning_move_needs_six_plies(b: BitBoard, col: u8)
    requires
        b.wf(),
        col < 7,
        b.can_play_spec(col),
        b.is_winning_move_spec(col),
    ensures
        b.move_count >= 6,
{
    let v = b.position_from_col_spec(col);
    lemma_position_from_col_popcount(b, col);
    if alignment_vertical_spec(v) {
        lemma_alignment_popcount(v, 1);
    } else if alignment_negative_diagonal_spec(v) {
        lemma_alignment_popcount(v, 6);
    } else if alignment_horizontal_spec(v) {
        lemma_alignment_popcount(v, 7);
    } else {
        lemma_alignment_popcount(v, 8);
    }
}

/// Every move the enumeration yields names a real column.
proof fn lemma_moves_prefix_columns(b: BitBoard, c: int)
    requires
        0 <= c <= 7,
    ensures
        forall|i: int|
            0 <= i < b.moves_prefix_spec(c).len() ==> (#[trigger] b.moves_prefix_spec(c)[i]).0 < 7
                && b.can_play_spec(b.moves_prefix_spec(c)[i].0),
    decreases c,
{
    if c > 0 {
        lemma_moves_prefix_columns(b, c - 1);
        let prev = b.moves_prefix_spec(c - 1);
        let cur = b.moves_prefix_spec(c);
        assert forall|i: int| 0 <= i < cur.len() implies (#[trigger] cur[i]).0 < 7
            && b.can_play_spec(cur[i].0) by {
            if i < prev.len() {
                assert(cur[i] == prev[i]);
            } else {
                assert(b.column_qualifies_spec((c - 1) as u8));
                assert(cur[i].0 == (c - 1) as u8);
            }
        }
    }
}

/// A mirrored position has the two keys of the original exchanged, so the
/// symmetric key does not change under reflection.
pub proof fn lemma_symmetric_key_mirror(b: BitBoard)
    requires
        b.position & !b.mask == 0,
        b.mask & !BOARD_MASK == 0,
    ensures
        mirror_position(b).symmetric_key_spec() == b.symmetric_key_spec(),
{
    lemma_position_in_board(b.position, b.mask);
    lemma_mirror_involution(b.position);
    lemma_mirror_involution(b.mask);
}

/// Character standing for the side to move: the first player ('1') when an
/// even number of plies was played.
pub open spec fn mover_char_spec(b: BitBoard) -> char {
    if b.move_count % 2 == 0 {
        '1'
    } else {
        '2'
    }
}

pub open spec fn opponent_char_spec(b: BitBoard) -> char {
    if b.move_count % 2 == 0 {
        '2'
    } else {
        '1'
    }
}

/// Bit index of grid cell `idx`, the cells being numbered row-major from the
/// top-left corner.
pub open spec fn grid_bit_index(idx: int) -> u64
    recommends
        0 <= idx < 42,
{
    ((idx % 7) * 7 + 5 - idx / 7) as u64
}

pub open spec fn cell_char_spec(b: BitBoard, idx: int) -> char
    recommends
        0 <= idx < 42,
{
    if !nth_bit(b.mask, grid_bit_index(idx)) {
        '0'
    } else if nth_bit(b.position, grid_bit_index(idx)) {
        mover_char_spec(b)
    } else {
        opponent_char_spec(b)
    }
}

/// The grid rendering: the side to move first, then the cells top-down and
/// left to right, each cell labeled with its owner's character.
pub open spec fn stringify_spec(b: BitBoard) -> Seq<char> {
    Seq::new(
        43,
        |i: int|
            if i == 0 {
                mover_char_spec(b)
            } else {
                cell_char_spec(b, i - 1)
            },
    )
}

impl BitBoard {
    /// Renders the board in the grid form that `position_factory::create`
    /// accepts back.
    pub fn stringify(&self) -> (r: String)
        ensures
            r@ == stringify_spec(*self),
    {
        proof {
            reveal_strlit("0");
            reveal_strlit("1");
            reveal_strlit("2");
        }
        let mut s = String::new();
        if self.move_count % 2 == 0 {
            s.append("1");
        } else {
            s.append("2");
        }
        let mut idx: u8 = 0;
        while idx < 42
            invariant
                idx <= 42,
                s@ =~= stringify_spec(*self).subrange(0, 1 + idx as int),
            decreases 42 - idx,
        {
            let col = idx % 7;
            let row = 5 - idx / 7;
            let j = (col as u64) * 7 + (row as u64);
            proof {
                reveal_strlit("0");
                reveal_strlit("1");
                reveal_strlit("2");
                let m = self.mask;
                let p = self.position;
                assert((m & (1u64 << j) == 0) == ((m >> j) & 1 != 1) && (p & (1u64 << j) == 0) == ((
                p >> j) & 1 != 1)) by (bit_vector)
                    requires
                        j < 64,
                ;
            }
            if self.mask & (1u64 << j) == 0 {
                s.append("0");
            } else if self.position & (1u64 << j) != 0 {
                if self.move_count % 2 == 0 {
                    s.append("1");
                } else {
                    s.append("2");
                }
            } else {
                if self.move_count % 2 == 0 {
                    s.append("2");
                } else {
                    s.append("1");
                }
            }
            idx = idx + 1;
            proof {
                assert(s@ =~= stringify_spec(*self).subrange(0, 1 + idx as int));
            }
        }
        proof {
            assert(s@ =~= stringify_spec(*self));
        }
        s
    }
}

} // verus!

use vstd::prelude::*;
use crate::bit_board::{
    cell_char_spec, columns_contiguous, grid_bit_index, lemma_pc_to_or_bit, mover_char_spec,
    nth_bit, opponent_char_spec, pc_to, popcount, stringify_spec, BitBoard, BOARD_MASK,
};

verus! {

/// Numeric value of a decimal digit character.
pub open spec fn digit_of_spec(c: char) -> Option<u8> {
    if c == '0' {
        Some(0u8)
    } else if c == '1' {
        Some(1u8)
    } else if c == '2' {
        Some(2u8)
    } else if c == '3' {
        Some(3u8)
    } else if c == '4' {
        Some(4u8)
    } else if c == '5' {
        Some(5u8)
    } else if c == '6' {
        Some(6u8)
    } else if c == '7' {
        Some(7u8)
    } else if c == '8' {
        Some(8u8)
    } else if c == '9' {
        Some(9u8)
    } else {
        None
    }
}

fn digit_of(c: char) -> (r: Option<u8>)
    ensures
        r == digit_of_spec(c),
{
    match c {
        '0' => Some(0),
        '1' => Some(1),
        '2' => Some(2),
        '3' => Some(3),
        '4' => Some(4),
        '5' => Some(5),
        '6' => Some(6),
        '7' => Some(7),
        '8' => Some(8),
        '9' => Some(9),
        _ => None,
    }
}

/// The board a move-list string denotes: each character is the column of
/// one ply, played in order from the empty board. Nothing when a character
/// is no digit, names a column off the board, or plays into a full column.
pub open spec fn play_moves_spec(s: Seq<char>) -> Option<BitBoard>
    decreases s.len(),
{
    if s.len() == 0 {
        Some(BitBoard { position: 0u64, mask: 0u64, move_count: 0u8 })
    } else {
        match play_moves_spec(s.drop_last()) {
            None => None,
            Some(b) => match digit_of_spec(s.last()) {
                None => None,
                Some(d) => if d < 7 && b.can_play_spec(d) {
                    Some(b.play_result_spec(d))
                } else {
                    None
                },
            },
        }
    }
}

/// Occupied cells among the first `n` grid cells of a grid-form string:
/// every cell whose character is not '0'.
pub open spec fn grid_mask_rec(s: Seq<char>, n: int) -> u64
    recommends
        s.len() == 43,
        0 <= n <= 42,
    decreases n,
{
    if n <= 0 {
        0u64
    } else {
        grid_mask_rec(s, n - 1) | (if s[n] != '0' {
            1u64 << grid_bit_index(n - 1)
        } else {
            0u64
        })
    }
}

/// Cells among the first `n` grid cells owned by the player named by the
/// leading character.
pub open spec fn grid_position_rec(s: Seq<char>, n: int) -> u64
    recommends
        s.len() == 43,
        0 <= n <= 42,
    decreases n,
{
    if n <= 0 {
        0u64
    } else {
        grid_position_rec(s, n - 1) | (if s[n] == s[0] {
            1u64 << grid_bit_index(n - 1)
        } else {
            0u64
        })
    }
}

/// Number of stones among the first `n` grid cells.
pub open spec fn grid_count_rec(s: Seq<char>, n: int) -> int
    recommends
        s.len() == 43,
        0 <= n <= 42,
    decreases n,
{
    if n <= 0 {
        0
    } else {
        grid_count_rec(s, n - 1) + if s[n] != '0' {
            1int
        } else {
            0int
        }
    }
}

/// Number of stones of the player to move among the first `n` grid cells.
pub open spec fn grid_player_count_rec(s: Seq<char>, n: int) -> int
    recommends
        s.len() == 43,
        0 <= n <= 42,
    decreases n,
{
    if n <= 0 {
        0
    } else {
        grid_player_count_rec(s, n - 1) + if s[n] == s[0] {
            1int
        } else {
            0int
        }
    }
}

/// The board a grid-form string denotes: a leading player character, then
/// the cells row-major from the top. The player to move must own half of
/// the stones rounded down, else nothing.
pub open spec fn grid_parse_spec(s: Seq<char>) -> Option<BitBoard>
    recommends
        s.len() == 43,
{
    if s[0] != '1' && s[0] != '2' {
        None
    } else {
        let mc = grid_count_rec(s, 42);
        if mc / 2 == grid_player_count_rec(s, 42) {
            Some(
                BitBoard {
                    position: grid_position_rec(s, 42),
                    mask: grid_mask_rec(s, 42),
                    move_count: mc as u8,
                },
            )
        } else {
            None
        }
    }
}

/// What `create` accepts: the grid form at exactly forty-three characters,
/// the move-list form below that, nothing above it.
pub open spec fn parse_spec(s: Seq<char>) -> Option<BitBoard> {
    if s.len() == 43 {
        grid_parse_spec(s)
    } else if s.len() < 43 {
        play_moves_spec(s)
    } else {
        None
    }
}


/// The character of a decimal digit.
pub open spec fn digit_char_spec(d: u8) -> char
    recommends
        d < 10,
{
    if d == 0 {
        '0'
    } else if d == 1 {
        '1'
    } else if d == 2 {
        '2'
    } else if d == 3 {
        '3'
    } else if d == 4 {
        '4'
    } else if d == 5 {
        '5'
    } else if d == 6 {
        '6'
    } else if d == 7 {
        '7'
    } else if d == 8 {
        '8'
    } else {
        '9'
    }
}

fn append_digit(s: &mut String, d: u8)
    requires
        d < 10,
    ensures
        final(s)@ == old(s)@.push(digit_char_spec(d)),
{
    proof {
        reveal_strlit("0");
        reveal_strlit("1");
        reveal_strlit("2");
        reveal_strlit("3");
        reveal_strlit("4");
        reveal_strlit("5");
        reveal_strlit("6");
        reveal_strlit("7");
        reveal_strlit("8");
        reveal_strlit("9");
    }
    match d {
        0 => s.append("0"),
        1 => s.append("1"),
        2 => s.append("2"),
        3 => s.append("3"),
        4 => s.append("4"),
        5 => s.append("5"),
        6 => s.append("6"),
        7 => s.append("7"),
        8 => s.append("8"),
        _ => s.append("9"),
    }
    proof {
        assert(s@ =~= old(s)@.push(digit_char_spec(d)));
    }
}

/// The decimal rendering of a small count, for error reports.
pub open spec fn decimal_chars_spec(n: u8) -> Seq<char>
    recommends
        n < 100,
{
    if n < 10 {
        seq![digit_char_spec(n)]
    } else {
        seq![digit_char_spec(n / 10), digit_char_spec(n % 10)]
    }
}

fn decimal_string(n: u8) -> (r: String)
    requires
        n < 100,
    ensures
        r@ == decimal_chars_spec(n),
{
    let mut s = String::new();
    if n >= 10 {
        append_digit(&mut s, n / 10);
    }
    append_digit(&mut s, n % 10);
    proof {
        assert(s@ =~= decimal_chars_spec(n));
    }
    s
}

/// Parses a position string in either accepted form; every accepted board
/// is legal, and every string the model rejects comes back as an error.
pub fn create(s: &str) -> (r: Result<BitBoard, String>)
    ensures
        r is Ok ==> parse_spec(s@) == Some(r->Ok_0) && r->Ok_0.wf(),
        r is Ok && s@.len() < 43 ==> columns_contiguous(r->Ok_0.mask),
        r is Err ==> parse_spec(s@) is None,
        s@.len() > 43 ==> r is Err && r->Err_0@ == "'value' is too long to parse!"@,
        s@.len() == 43 && s@[0] != '1' && s@[0] != '2' ==> r is Err && r->Err_0@ == "'"@
            + s@.subrange(0, 1) + "' is not a valid starting player"@,
{
    let n = s.unicode_len();
    if n == 43 {
        create_from_grid(s)
    } else if n < 43 {
        create_from_moves(s)
    } else {
        Err("'value' is too long to parse!".to_owned())
    }
}

fn create_from_moves(s: &str) -> (r: Result<BitBoard, String>)
    requires
        s@.len() < 43,
    ensures
        r is Ok ==> play_moves_spec(s@) == Some(r->Ok_0) && r->Ok_0.wf() && columns_contiguous(
            r->Ok_0.mask,
        ),
        r is Err ==> play_moves_spec(s@) is None,
{
    let n = s.unicode_len();
    let mut bit_board = BitBoard::new();
    let mut i: usize = 0;
    while i < n
        invariant
            s@.len() == n < 43,
            i <= n,
            bit_board.wf(),
            columns_contiguous(bit_board.mask),
            play_moves_spec(s@.subrange(0, i as int)) == Some(bit_board),
        decreases n - i,
    {
        let c = s.get_char(i);
        let ghost prefix = s@.subrange(0, i as int + 1);
        proof {
            assert(prefix.drop_last() =~= s@.subrange(0, i as int));
            assert(prefix.last() == s@[i as int]);
        }
        match digit_of(c) {
            Some(d) => {
                if d >= 7 {
                    proof {
                        assert(play_moves_spec(prefix) is None);
                        lemma_play_moves_prefix_none(s@, i as int + 1);
                    }
                    let digit = s.substring_char(i, i + 1);
                    return Err(String::from_str(digit).concat(" is too large"));
                } else if bit_board.can_play(d) {
                    let ghost old_board = bit_board;
                    bit_board.play(d);
                    proof {
                        assert(bit_board == old_board.play_result_spec(d));
                        assert(play_moves_spec(prefix) == Some(bit_board));
                    }
                } else {
                    proof {
                        assert(play_moves_spec(prefix) is None);
                        lemma_play_moves_prefix_none(s@, i as int + 1);
                    }
                    let digit = s.substring_char(i, i + 1);
                    let ply = decimal_string(bit_board.get_move_count() + 1);
                    return Err(
                        String::from_str("Cannot play in column ").concat(digit).concat(
                            " on move ",
                        ).concat(ply.as_str()),
                    );
                }
            },
            None => {
                proof {
                    assert(play_moves_spec(prefix) is None);
                    lemma_play_moves_prefix_none(s@, i as int + 1);
                }
                let offending = s.substring_char(i, i + 1);
                return Err(String::from_str(offending).concat(" is not a digit"));
            },
        }
        i = i + 1;
    }
    proof {
        assert(s@.subrange(0, n as int) =~= s@);
    }
    Ok(bit_board)
}

fn create_from_grid(s: &str) -> (r: Result<BitBoard, String>)
    requires
        s@.len() == 43,
    ensures
        r is Ok ==> grid_parse_spec(s@) == Some(r->Ok_0) && r->Ok_0.wf(),
        r is Err ==> grid_parse_spec(s@) is None,
        s@[0] != '1' && s@[0] != '2' ==> r is Err && r->Err_0@ == "'"@ + s@.subrange(0, 1)
            + "' is not a valid starting player"@,
{
    let player_up_next = s.get_char(0);
    if !(player_up_next == '1' || player_up_next == '2') {
        let offending = s.substring_char(0, 1);
        let message = String::from_str("'").concat(offending).concat(
            "' is not a valid starting player",
        );
        proof {
            assert(message@ =~= "'"@ + s@.subrange(0, 1) + "' is not a valid starting player"@);
        }
        return Err(message);
    }
    let mut position: u64 = 0;
    let mut mask: u64 = 0;
    let mut move_count: u8 = 0;
    let mut player_moves: u8 = 0;
    let mut index: u8 = 0;
    proof {
        crate::bit_board::lemma_pc_to_zero(64);
        assert(0u64 & !0u64 == 0 && 0u64 & !BOARD_MASK == 0) by (bit_vector);
        assert forall|j: int| 0 <= j < 42 implies !nth_bit(0u64, #[trigger] grid_bit_index(j)) by {
            let t = grid_bit_index(j);
            assert((0u64 >> t) & 1 != 1) by (bit_vector);
        }
    }
    while index < 42
        invariant
            s@.len() == 43,
            player_up_next == s@[0],
            player_up_next == '1' || player_up_next == '2',
            index <= 42,
            mask == grid_mask_rec(s@, index as int),
            position == grid_position_rec(s@, index as int),
            move_count == grid_count_rec(s@, index as int),
            player_moves == grid_player_count_rec(s@, index as int),
            popcount(mask) == move_count,
            popcount(position) == player_moves,
            position & !mask == 0,
            mask & !BOARD_MASK == 0,
            move_count <= index,
            player_moves <= move_count,
            forall|j: int| index <= j < 42 ==> !nth_bit(mask, grid_bit_index(j)),
        decreases 42 - index,
    {
        let c = s.get_char(index as usize + 1);
        proof {
            assert(mask | 0u64 == mask && position | 0u64 == position) by (bit_vector);
        }
        if c != '0' {
            move_count = move_count + 1;

            let row = 5 - index / 7;
            let col = index % 7;
            let value = 1u64 << ((col as u64) * 7 + (row as u64));
            proof {
                lemma_grid_step(s@, index as int, mask, position);
            }
            mask = mask | value;
            if c == player_up_next {
                position = position | value;
                player_moves = player_moves + 1;
            }
        }
        index = index + 1;
    }

    if move_count / 2 == player_moves {
        Ok(BitBoard { position, mask, move_count })
    } else {
        Err("One player has made at least one extra move".to_owned())
    }
}

/// Once some prefix of a move list fails to parse, the whole list fails.
proof fn lemma_play_moves_prefix_none(s: Seq<char>, i: int)
    requires
        0 <= i <= s.len(),
        play_moves_spec(s.subrange(0, i)) is None,
    ensures
        play_moves_spec(s) is None,
    decreases s.len() - i,
{
    if i == s.len() {
        assert(s.subrange(0, i) =~= s);
    } else {
        assert(s.subrange(0, i + 1).drop_last() =~= s.subrange(0, i));
        lemma_play_moves_prefix_none(s, i + 1);
    }
}

/// The board bits of the first `n` grid cells.
pub open spec fn cells_prefix_mask(n: int) -> u64
    recommends
        0 <= n <= 42,
    decreases n,
{
    if n <= 0 {
        0u64
    } else {
        cells_prefix_mask(n - 1) | (1u64 << grid_bit_index(n - 1))
    }
}

/// Restricting by a mask and adding one bit commute the expected way.
proof fn lemma_and_or_bit(x: u64, c: u64, k: u64)
    requires
        k < 64,
    ensures
        nth_bit(x, k) ==> ((x & c) | (1u64 << k)) == (x & (c | (1u64 << k))),
        !nth_bit(x, k) ==> (x & c) == (x & (c | (1u64 << k))),
        !nth_bit(c, k) ==> !nth_bit(x & c, k),
{
    assert((((x >> k) & 1 == 1) ==> ((x & c) | (1u64 << k)) == (x & (c | (1u64 << k)))) && (((x
        >> k) & 1 != 1) ==> (x & c) == (x & (c | (1u64 << k)))) && (((c >> k) & 1 != 1) ==> (((x
        & c) >> k) & 1 != 1))) by (bit_vector)
        requires
            k < 64,
    ;
}

/// Cells not yet gathered have their bits clear in the gathered prefix.
proof fn lemma_cells_prefix_clear(n: int, j: int)
    requires
        0 <= n <= j < 42,
    ensures
        !nth_bit(cells_prefix_mask(n), grid_bit_index(j)),
    decreases n,
{
    let t = grid_bit_index(j);
    assert(t == (j % 7) * 7 + 5 - j / 7 && t < 48) by {
        assert(j == 7 * (j / 7) + j % 7);
    }
    if n == 0 {
        assert((0u64 >> t) & 1 != 1) by (bit_vector);
    } else {
        lemma_cells_prefix_clear(n - 1, j);
        lemma_grid_bit_injective(n - 1, j);
        let c = cells_prefix_mask(n - 1);
        let k = grid_bit_index(n - 1);
        assert(k == ((n - 1) % 7) * 7 + 5 - (n - 1) / 7 && k < 48) by {
            assert(n - 1 == 7 * ((n - 1) / 7) + (n - 1) % 7);
        }
        assert(((c >> t) & 1 != 1 && t != k) ==> (((c | (1u64 << k)) >> t) & 1 != 1)) by (bit_vector)
            requires
                t < 64,
                k < 64,
        ;
    }
}

/// Reading the rendered grid back gathers exactly the board's own bits and
/// stone counts, cell by cell.
proof fn lemma_grid_read_back(b: BitBoard, n: int)
    requires
        b.wf(),
        0 <= n <= 42,
    ensures
        grid_mask_rec(stringify_spec(b), n) == b.mask & cells_prefix_mask(n),
        grid_position_rec(stringify_spec(b), n) == b.position & cells_prefix_mask(n),
        grid_count_rec(stringify_spec(b), n) == pc_to(b.mask & cells_prefix_mask(n), 64),
        grid_player_count_rec(stringify_spec(b), n) == pc_to(
            b.position & cells_prefix_mask(n),
            64,
        ),
    decreases n,
{
    let s = stringify_spec(b);
    if n == 0 {
        crate::bit_board::lemma_pc_to_zero(64);
        let p = b.position;
        let m = b.mask;
        assert(m & 0u64 == 0 && p & 0u64 == 0) by (bit_vector);
    } else {
        lemma_grid_read_back(b, n - 1);
        let k = grid_bit_index(n - 1);
        assert(k == ((n - 1) % 7) * 7 + 5 - (n - 1) / 7 && k < 48) by {
            assert(n - 1 == 7 * ((n - 1) / 7) + (n - 1) % 7);
        }
        let c = cells_prefix_mask(n - 1);
        lemma_cells_prefix_clear(n - 1, n - 1);
        assert(s[n] == cell_char_spec(b, n - 1));
        // the cell's character tells exactly which accumulators grow
        assert(mover_char_spec(b) != '0' && opponent_char_spec(b) != '0' && mover_char_spec(b)
            != opponent_char_spec(b));
        assert(s[0] == mover_char_spec(b));
        lemma_and_or_bit(b.mask, c, k);
        lemma_and_or_bit(b.position, c, k);
        let mprev = b.mask & c;
        let pprev = b.position & c;
        assert(mprev | 0u64 == mprev && pprev | 0u64 == pprev) by (bit_vector);
        if nth_bit(b.mask, k) {
            lemma_pc_to_or_bit(b.mask & c, k, 64);
        }
        if nth_bit(b.position, k) {
            lemma_pc_to_or_bit(b.position & c, k, 64);
            // a stone of the mover is a stone on the board
            let p = b.position;
            let m = b.mask;
            assert((((p >> k) & 1 == 1 && p & !m == 0) ==> ((m >> k) & 1 == 1))) by (bit_vector)
                requires
                    k < 64,
            ;
        }
    }
}

/// Rendering a position and parsing the text back yields the position
/// unchanged.
pub proof fn lemma_parse_stringify_round_trip(b: BitBoard)
    requires
        b.wf(),
    ensures
        parse_spec(stringify_spec(b)) == Some(b),
{
    let s = stringify_spec(b);
    assert(s.len() == 43);
    assert(s[0] == mover_char_spec(b));
    lemma_grid_read_back(b, 42);
    assert(cells_prefix_mask(42) == BOARD_MASK) by (bit_vector);
    let p = b.position;
    let m = b.mask;
    assert(m & BOARD_MASK == m && p & BOARD_MASK == p) by (bit_vector)
        requires
            m & !BOARD_MASK == 0,
            p & !m == 0,
    ;
    assert(grid_count_rec(s, 42) == b.move_count);
    assert(grid_player_count_rec(s, 42) == b.move_count / 2);
    assert(grid_parse_spec(s) == Some(b));
}

/// Different grid cells use different board bits.
proof fn lemma_grid_bit_injective(i: int, j: int)
    requires
        0 <= i < 42,
        0 <= j < 42,
        i != j,
    ensures
        grid_bit_index(i) != grid_bit_index(j),
{
    assert(i == 7 * (i / 7) + i % 7);
    assert(j == 7 * (j / 7) + j % 7);
}

/// Everything one loop step of the grid parser needs about the fresh cell
/// bit: it lies on the board, it is new to both accumulators, it raises
/// their stone counts by one, and it leaves the bits of the cells still to
/// come untouched.
proof fn lemma_grid_step(s: Seq<char>, i: int, mask: u64, position: u64)
    requires
        s.len() == 43,
        0 <= i < 42,
        position & !mask == 0,
        mask & !BOARD_MASK == 0,
        forall|j: int| i <= j < 42 ==> !nth_bit(mask, #[trigger] grid_bit_index(j)),
    ensures
        ({
            let v = 1u64 << grid_bit_index(i);
            &&& v & !BOARD_MASK == 0
            &&& !nth_bit(mask, grid_bit_index(i))
            &&& !nth_bit(position, grid_bit_index(i))
            &&& popcount(mask | v) == popcount(mask) + 1
            &&& popcount(position | v) == popcount(position) + 1
            &&& (position | v) & !(mask | v) == 0
            &&& position & !(mask | v) == 0
            &&& (mask | v) & !BOARD_MASK == 0
            &&& forall|j: int|
                i < j < 42 ==> !nth_bit(mask | v, #[trigger] grid_bit_index(j))
        }),
{
    let k = grid_bit_index(i);
    assert(k == (i % 7) * 7 + 5 - i / 7 && k < 48) by {
        assert(i == 7 * (i / 7) + i % 7);
    }
    let col = (i % 7) as u64;
    let row = (5 - i / 7) as u64;
    assert(((1u64 << k) & !BOARD_MASK == 0) && ((position >> k) & 1 == 1 ==> (mask >> k) & 1 == 1)
        && ((position | (1u64 << k)) & !(mask | (1u64 << k))) == 0 && (position & !(mask | (1u64
        << k))) == 0 && ((mask | (1u64 << k)) & !BOARD_MASK) == (mask & !BOARD_MASK)) by (bit_vector)
        requires
            k == col * 7 + row,
            col < 7,
            row < 6,
            position & !mask == 0,
    ;
    crate::bit_board::lemma_pc_to_or_bit(mask, k, 64);
    crate::bit_board::lemma_pc_to_or_bit(position, k, 64);
    assert forall|j: int| i < j < 42 implies !nth_bit(mask | (1u64 << k), #[trigger] grid_bit_index(
        j,
    )) by {
        lemma_grid_bit_injective(i, j);
        let t = grid_bit_index(j);
        assert(t == (j % 7) * 7 + 5 - j / 7 && t < 48) by {
            assert(j == 7 * (j / 7) + j % 7);
        }
        assert(((mask | (1u64 << k)) >> t) & 1 == (mask >> t) & 1) by (bit_vector)
            requires
                t < 64,
                k < 64,
                t != k,
        ;
    }
}

} // verus!
